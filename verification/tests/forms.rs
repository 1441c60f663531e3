use arena_engine::card::{
    Ability, Amount, Card, CardId, CardKind, CardOrCrest, ChooseBy, ChooseOption, ChoosePickDe, Class, Condition,
    Effect, Filter, Fuse, FuseRecipe, FuseResult, Mode, Rarity, Traits, Until,
};
use arena_engine::card::{BoundPick, BoundSelector, Crest, Selector};
use arena_engine::db::CardDb;
use arena_engine::effects::first_choose_options;
use arena_engine::form::{apply_crystallize_form, fanfare_effects, play_form};
use arena_engine::fusion::{apply_fuse_start, can_fuse, engage_cost, fuse_partner_indices};
use arena_engine::error::Illegal;
use arena_engine::event::Event;
use arena_engine::state::ChoiceNode;
use arena_engine::ids::PlayerId;
use arena_engine::lasting::{
    cost_opt, expire_eot, expire_temp_traits, expire_until, grant_traits_opt, remove_traits_opt,
};
use arena_engine::state::{
    CardInstance, InstanceFlags, LeaderMod, Phase, PlayerState, SourceRef, State, TargetOpt, TempTraitGrant,
};
use arena_engine::info::resolve_play_form;
use arena_engine::state::PlayForm;
use arena_engine::lasting::{sequence_index_of, set_sequence_index};
use arena_engine::select::surviving_slot_key;
use arena_engine::action::Action;
use arena_engine::gates::board_info_for_legal;
use arena_engine::ids::{AttackTarget, Slot};

fn inst(id: u32, card: u32, cost: i32) -> CardInstance {
    CardInstance {
        id,
        card: CardId(card),
        kind: CardKind::Follower,
        class: Class::Neutral,
        tribes: Vec::new(),
        base_cost: cost,
        cost,
        attack: 2,
        defense: 3,
        max_defense: 3,
        evolved: false,
        super_evolved: false,
        traits: Traits::default(),
        countdown: None,
        printed_tags: Vec::new(),
        flags: InstanceFlags {
            summoning_sick: false,
            attacks_left: 1,
            engaged_this_turn: false,
            attacked_this_turn: false,
            fused_this_turn: false,
            was_fused: false,
            enhanced: false,
            fused_kinds: Vec::new(),
            ambush_active: false,
            eot_attack: 0,
            eot_defense: 0,
            eot_cost: None,
        },
        once_used: Vec::new(),
        spellboost_count: 0,
        skybound: 0,
        vars: Vec::new(),
        granted: Vec::new(),
        temp_traits: Vec::new(),
        sequence_index: 0,
    }
}

fn match_state() -> State {
    State {
        players: [PlayerState::new(), PlayerState::new()],
        turn: 1,
        active: PlayerId::A,
        first: PlayerId::A,
        phase: Phase::Main,
        winner: None,
        next_instance: 100,
        pending_play_rally: None,
        event_base_cost: None,
        event_inst_id: None,
        event_subject: None,
        combat_opposing: None,
        attacking_follower: false,
        attack_target_is_leader: false,
        bindings: Vec::new(),
        bind_append: false,
    }
}

fn any_filter() -> Filter {
    Filter {
        all: None,
        any: None,
        not: None,
        tribe: None,
        card: None,
        cards: None,
        not_card: None,
        kind: None,
        class: None,
        cost_eq: None,
        cost_lte: None,
        cost_gte: None,
        cost_in: None,
        base_cost_eq: None,
        base_cost_lte: None,
        base_cost_gte: None,
        base_cost_in: None,
        attack_lte: None,
        attack_gte: None,
        defense_lte: None,
        defense_gte: None,
        evolved: None,
        unevolved: None,
        damaged: None,
        has_trait: None,
        enhanced: None,
        same_cost_group: None,
        has_last_words: None,
        has_spellboost: None,
        destroyed_this_match: None,
        did_not_attack_this_turn: None,
        super_evolved: None,
        not_bound: None,
    }
}

fn draw(n: i32) -> Effect {
    Effect::Draw {
        printed: None,
        as_bind: None,
        when: None,
        count: Amount::Int(n),
        filter: None,
        distinct_names: None,
        player: None,
    }
}

fn drawn(e: &Effect) -> i32 {
    match e {
        Effect::Draw { count: Amount::Int(n), .. } => *n,
        _ => -1,
    }
}

fn fanfare(effects: Vec<Effect>) -> Ability {
    Ability::Fanfare { printed: String::new(), effects, zone: None, once_per_turn: None, when: None, replaces: None }
}

fn last_words(effects: Vec<Effect>) -> Ability {
    Ability::LastWords { printed: String::new(), effects, zone: None, once_per_turn: None, when: None, replaces: None }
}

fn follower_card(id: u32, cost: i32, abilities: Vec<Ability>, modes: Vec<Mode>, fuse: Option<Fuse>) -> Card {
    Card::Follower {
        id: CardId(id),
        name: String::from("Unit"),
        class: Class::Neutral,
        set: 1,
        rarity: Rarity::Bronze,
        token: false,
        cost,
        text: String::new(),
        attack: 2,
        defense: 3,
        tribes: Vec::new(),
        traits: None,
        abilities: Some(abilities),
        modes: Some(modes),
        fuse,
        vars: None,
    }
}

#[test]
fn fanfare_effects_follow_printed_order() {
    let card = follower_card(1, 2, vec![fanfare(vec![draw(1)]), last_words(vec![draw(9)]), fanfare(vec![draw(2), draw(3)])], vec![], None);
    let fx = fanfare_effects(&card);
    let counts: Vec<i32> = fx.iter().map(|e| drawn(e)).collect();
    assert_eq!(counts, vec![1, 2, 3]);
}

#[test]
fn play_form_picks_enhance_accelerate_crystallize_or_normal() {
    let modes = vec![
        Mode::Enhance { cost: 5, printed: String::new(), effects: vec![draw(5)], replaces_base: None },
        Mode::Enhance { cost: 7, printed: String::new(), effects: vec![draw(7)], replaces_base: Some(true) },
        Mode::Accelerate { cost: 1, printed: String::new(), effects: vec![draw(4)] },
    ];
    let card = follower_card(1, 3, vec![fanfare(vec![draw(1)])], modes, None);
    let hand = inst(1, 1, 3);
    // Normal play with the Fanfare effects.
    let (paid, kind, fx) = play_form(&card, &hand, 4, 5).unwrap();
    assert_eq!((paid, kind), (3, CardKind::Follower));
    assert_eq!(fx.iter().map(|e| drawn(e)).collect::<Vec<_>>(), vec![1]);
    // Enhance 5 adds its effects.
    let (paid, _, fx) = play_form(&card, &hand, 6, 5).unwrap();
    assert_eq!(paid, 5);
    assert_eq!(fx.iter().map(|e| drawn(e)).collect::<Vec<_>>(), vec![1, 5]);
    // Enhance 7 replaces everything before it.
    let (paid, _, fx) = play_form(&card, &hand, 9, 5).unwrap();
    assert_eq!(paid, 7);
    assert_eq!(fx.iter().map(|e| drawn(e)).collect::<Vec<_>>(), vec![7]);
    // Accelerate when the card itself is unaffordable.
    let (paid, kind, fx) = play_form(&card, &hand, 2, 5).unwrap();
    assert_eq!((paid, kind), (1, CardKind::Spell));
    assert_eq!(fx.iter().map(|e| drawn(e)).collect::<Vec<_>>(), vec![4]);
    // Nothing affordable.
    assert!(play_form(&card, &hand, 0, 5).is_none());
}

#[test]
fn crystallize_turns_the_instance_into_an_amulet() {
    let modes = vec![Mode::Crystallize {
        cost: 1,
        printed: String::new(),
        countdown: Some(3),
        traits: None,
        abilities: Some(vec![last_words(vec![draw(1)])]),
    }];
    let card = follower_card(1, 4, vec![], modes, None);
    let hand = inst(1, 1, 4);
    let (paid, kind, fx) = play_form(&card, &hand, 2, 5).unwrap();
    assert_eq!((paid, kind, fx.len()), (1, CardKind::Amulet, 0));
    let mut c = inst(1, 1, 4);
    c.traits.ward = Some(true);
    apply_crystallize_form(&card, &mut c, 1);
    assert_eq!(c.kind, CardKind::Amulet);
    assert_eq!((c.cost, c.base_cost, c.attack, c.defense, c.max_defense), (1, 1, 0, 0, 0));
    assert_eq!(c.traits.ward, None);
    assert_eq!(c.countdown, Some(3));
    assert_eq!(c.printed_tags, vec![String::from("lastWords")]);
}

#[test]
fn first_choose_options_descends_into_branches() {
    let opt = ChooseOption { printed: String::from("pick me"), effects: vec![draw(2)] };
    let choose = Effect::Choose {
        printed: None,
        as_bind: None,
        when: None,
        pick: ChoosePickDe::N(1),
        by: ChooseBy::Player,
        options: Some(vec![opt]),
        options_from: None,
    };
    let branch = Effect::If {
        printed: None,
        as_bind: None,
        when: None,
        cond: Condition::Not { not: Box::new(Condition::Not { not: Box::new(Condition::Evolved { evolved: true }) }) },
        then: vec![draw(1)],
        else_effects: Some(vec![choose]),
    };
    let effects = vec![draw(3), branch];
    let found = first_choose_options(&effects).unwrap();
    assert_eq!(found.len(), 1);
    assert_eq!(found[0].printed, "pick me");
    assert!(first_choose_options(&[draw(1)]).is_none());
}

#[test]
fn engage_cost_reads_the_first_engage() {
    let engage = |cost: i32| Ability::Engage {
        cost,
        sacrifice: false,
        printed: String::new(),
        effects: vec![],
        zone: None,
        once_per_turn: None,
        when: None,
        replaces: None,
    };
    let card = follower_card(1, 2, vec![fanfare(vec![]), engage(3), engage(5)], vec![], None);
    assert_eq!(engage_cost(&card), Some(3));
    assert_eq!(engage_cost(&follower_card(2, 2, vec![fanfare(vec![])], vec![], None)), None);
}

#[test]
fn fusion_partners_skip_the_host_and_remembered_kinds() {
    let mut partners = any_filter();
    partners.cost_lte = Some(Box::new(Amount::Int(2)));
    let fuse = Fuse {
        printed: String::new(),
        partners,
        recipes: Some(vec![FuseRecipe {
            partners: None,
            cost_total: None,
            cost_total_gte: None,
            requires: Some(vec![CardId(20)]),
            result: FuseResult::Transform { transform_into: CardId(30) },
        }]),
    };
    let host_card = follower_card(10, 1, vec![], vec![], Some(fuse));
    let mut db = CardDb::empty();
    assert!(db.load_entry("cards/00000010.json", CardOrCrest::Card(host_card), false).is_ok());
    let mut s = match_state();
    let mut host = inst(1, 10, 1);
    host.flags.fused_kinds.push(CardId(21));
    s.players[0].hand.push(host);
    s.players[0].hand.push(inst(2, 20, 2));
    s.players[0].hand.push(inst(3, 21, 1));
    s.players[0].hand.push(inst(4, 22, 5));
    let fuse_ref = match db.card(CardId(10)).unwrap().fuse() {
        Some(f) => f,
        None => panic!("fuse"),
    };
    assert_eq!(fuse_partner_indices(&db, &s, PlayerId::A, 0, fuse_ref), vec![1]);
    let host_view = inst(1, 10, 1);
    assert!(can_fuse(&db, &s, PlayerId::A, 0, &host_view));
    let mut used = inst(1, 10, 1);
    used.flags.fused_this_turn = true;
    assert!(!can_fuse(&db, &s, PlayerId::A, 0, &used));
}

#[test]
fn eot_cost_change_is_restored_at_end_of_turn() {
    let db = CardDb::empty();
    let mut s = match_state();
    s.players[0].hand.push(inst(1, 10, 4));
    let t = TargetOpt::Hand { player: PlayerId::A, pos: 0 };
    let src = SourceRef::Leader { player: PlayerId::A };
    cost_opt(&mut s, &t, Some(&Amount::Int(-3)), None, true, &db, PlayerId::A, src);
    assert_eq!(s.players[0].hand[0].cost, 1);
    cost_opt(&mut s, &t, Some(&Amount::Int(-5)), None, true, &db, PlayerId::A, src);
    assert_eq!(s.players[0].hand[0].cost, 0);
    cost_opt(&mut s, &t, None, Some(&Amount::Int(9)), false, &db, PlayerId::A, src);
    assert_eq!(s.players[0].hand[0].cost, 9);
    expire_eot(&mut s, PlayerId::A);
    assert_eq!(s.players[0].hand[0].cost, 4);
    assert_eq!(s.players[0].hand[0].flags.eot_cost, None);
}

#[test]
fn eot_buffs_are_taken_back_on_the_field() {
    let mut s = match_state();
    let mut c = inst(1, 10, 2);
    c.attack = 5;
    c.max_defense = 6;
    c.defense = 6;
    c.flags.eot_attack = 3;
    c.flags.eot_defense = 3;
    s.players[0].field[0] = Some(c);
    expire_eot(&mut s, PlayerId::A);
    let f = s.players[0].field[0].as_ref().unwrap();
    assert_eq!((f.attack, f.max_defense, f.defense), (2, 3, 3));
    assert_eq!((f.flags.eot_attack, f.flags.eot_defense), (0, 0));
}

#[test]
fn timed_grants_expire_with_their_turn_end() {
    let mut s = match_state();
    s.players[1].field[0] = Some(inst(7, 10, 2));
    let t = TargetOpt::Slot { player: PlayerId::B, slot: 0 };
    let mut ward = Traits::default();
    ward.ward = Some(true);
    ward.attacks_per_turn = Some(3);
    grant_traits_opt(&mut s, PlayerId::A, &t, &ward, Some(&Until::EndOfOpponentTurn));
    {
        let f = s.players[1].field[0].as_ref().unwrap();
        assert_eq!(f.traits.ward, Some(true));
        assert_eq!(f.flags.attacks_left, 3);
        assert_eq!(f.temp_traits.len(), 1);
    }
    // A's own turn ends: a grant until the end of the opponent's turn stays.
    expire_until(&mut s, Until::EndOfTurn, PlayerId::A);
    assert_eq!(s.players[1].field[0].as_ref().unwrap().temp_traits.len(), 1);
    // B's turn ends: it is gone, and at most one attack is left.
    expire_until(&mut s, Until::EndOfTurn, PlayerId::B);
    let f = s.players[1].field[0].as_ref().unwrap();
    assert_eq!(f.traits.ward, None);
    assert_eq!(f.flags.attacks_left, 1);
    assert!(f.temp_traits.is_empty());
}

#[test]
fn leader_modifiers_expire_by_their_duration() {
    let mut s = match_state();
    let m = |until: Option<Until>| LeaderMod { max_defense: None, damage_cap: Some(1), damage_taken_bonus: 0, until };
    s.players[0].leader_mods.push(m(Some(Until::EndOfTurn)));
    s.players[0].leader_mods.push(m(Some(Until::EndOfOpponentTurn)));
    s.players[0].leader_mods.push(m(None));
    expire_until(&mut s, Until::EndOfTurn, PlayerId::A);
    assert_eq!(s.players[0].leader_mods.len(), 2);
    expire_until(&mut s, Until::EndOfTurn, PlayerId::B);
    assert_eq!(s.players[0].leader_mods.len(), 1);
    assert_eq!(s.players[0].leader_mods[0].until, None);
}

#[test]
fn removing_ambush_ends_hiding_on_the_field_only() {
    let mut s = match_state();
    let mut c = inst(1, 10, 2);
    c.traits.ambush = Some(true);
    c.flags.ambush_active = true;
    s.players[0].field[1] = Some(c);
    let mut amb = Traits::default();
    amb.ambush = Some(true);
    let mut h = inst(2, 11, 2);
    h.traits.ambush = Some(true);
    s.players[0].hand.push(h);
    remove_traits_opt(&mut s, &TargetOpt::Hand { player: PlayerId::A, pos: 0 }, &amb);
    assert_eq!(s.players[0].hand[0].traits.ambush, Some(true));
    remove_traits_opt(&mut s, &TargetOpt::Slot { player: PlayerId::A, slot: 1 }, &amb);
    let f = s.players[0].field[1].as_ref().unwrap();
    assert_eq!(f.traits.ambush, None);
    assert!(!f.flags.ambush_active);
}

#[test]
fn expire_temp_traits_keeps_grants_that_do_not_end() {
    let mut c = inst(1, 10, 2);
    let mut rush = Traits::default();
    rush.rush = Some(true);
    c.traits.rush = Some(true);
    c.temp_traits.push(TempTraitGrant { traits: rush, until: Until::EndOfTurn, caster: PlayerId::B });
    expire_temp_traits(&mut c, Until::EndOfTurn, PlayerId::A);
    assert_eq!(c.temp_traits.len(), 1);
    assert_eq!(c.traits.rush, Some(true));
    expire_temp_traits(&mut c, Until::EndOfTurn, PlayerId::B);
    assert!(c.temp_traits.is_empty());
    assert_eq!(c.traits.rush, None);
}

#[test]
fn reported_form_follows_play_form() {
    let modes = vec![
        Mode::Enhance { cost: 6, printed: String::new(), effects: vec![draw(6)], replaces_base: None },
        Mode::Accelerate { cost: 1, printed: String::new(), effects: vec![draw(4)] },
    ];
    let card = follower_card(40, 3, vec![fanfare(vec![draw(1)])], modes, None);
    let mut db = CardDb::empty();
    assert!(db.load_entry("cards/00000040.json", CardOrCrest::Card(card), false).is_ok());
    let card = db.card(CardId(40)).unwrap();
    let mut hand = inst(1, 40, 3);
    hand.printed_tags.push(String::from("enhance"));
    for pp in 0..9 {
        let played = play_form(card, &hand, pp, 5).map(|(c, k, _)| (c, k));
        let shown = resolve_play_form(&db, &hand, pp);
        assert_eq!(played.map(|p| p.0), shown.map(|s| s.0));
        if let Some((_, PlayForm::Accelerate { .. })) = shown {
            assert_eq!(played.unwrap().1, CardKind::Spell);
        }
    }
    assert_eq!(resolve_play_form(&db, &hand, 7), Some((6, PlayForm::Enhance { paid: 6 })));
}

#[test]
fn sequence_steps_live_on_field_sources() {
    let mut s = match_state();
    s.players[1].field[2] = Some(inst(9, 10, 2));
    let src = SourceRef::Field { player: PlayerId::B, id: 9 };
    assert_eq!(sequence_index_of(&s, src), 0);
    set_sequence_index(&mut s, src, 2);
    assert_eq!(sequence_index_of(&s, src), 2);
    set_sequence_index(&mut s, SourceRef::Field { player: PlayerId::B, id: 8 }, 5);
    assert_eq!(sequence_index_of(&s, SourceRef::Field { player: PlayerId::B, id: 8 }), 0);
    assert_eq!(sequence_index_of(&s, SourceRef::Leader { player: PlayerId::B }), 0);
}

#[test]
fn surviving_slot_keys_count_survivors() {
    let mut s = match_state();
    let mut dead = inst(1, 10, 2);
    dead.defense = 0;
    s.players[0].field[0] = Some(dead);
    s.players[0].field[1] = Some(inst(2, 10, 2));
    s.players[0].field[2] = Some(inst(3, 10, 2));
    assert_eq!(surviving_slot_key(&s, PlayerId::A, 2, &[]), "slot:1");
    assert_eq!(surviving_slot_key(&s, PlayerId::A, 2, &[(PlayerId::A, 1)]), "slot:0");
    assert_eq!(surviving_slot_key(&s, PlayerId::A, 0, &[]), "slot:0");
    assert_eq!(surviving_slot_key(&s, PlayerId::A, 4, &[]), "slot:4");
}

#[test]
fn board_info_reports_attacks_from_legal_actions() {
    let db = CardDb::empty();
    let mut s = match_state();
    let mut rusher = inst(1, 10, 2);
    rusher.flags.summoning_sick = true;
    rusher.traits.rush = Some(true);
    s.players[0].field[0] = Some(rusher);
    s.players[0].field[3] = Some(inst(2, 11, 2));
    let legal = vec![
        Action::Attack { attacker: Slot(0), target: AttackTarget::Slot(Slot(1)) },
        Action::Attack { attacker: Slot(3), target: AttackTarget::Leader },
        Action::EndTurn,
    ];
    let info = board_info_for_legal(&db, &s, PlayerId::A, &legal);
    assert_eq!(info.len(), 2);
    assert_eq!((info[0].slot, info[0].can_attack, info[0].can_attack_leader, info[0].rush_only), (0, true, false, true));
    assert_eq!((info[1].slot, info[1].can_attack, info[1].can_attack_leader, info[1].rush_only), (3, true, true, false));
    assert_eq!(info[0].id, "00000010");
    let other = board_info_for_legal(&db, &s, PlayerId::B, &legal);
    assert!(other.is_empty());
}

#[test]
fn fuse_start_offers_the_partners() {
    let mut partners = any_filter();
    partners.cost_lte = Some(Box::new(Amount::Int(2)));
    let fuse = Fuse { printed: String::new(), partners, recipes: None };
    let host_card = follower_card(10, 1, vec![], vec![], Some(fuse));
    let mut db = CardDb::empty();
    assert!(db.load_entry("cards/00000010.json", CardOrCrest::Card(host_card), false).is_ok());
    assert!(db.load_entry("cards/00000011.json", CardOrCrest::Card(follower_card(11, 1, vec![], vec![], None)), false).is_ok());
    let mut s = match_state();
    s.players[0].hand.push(inst(1, 10, 1));
    s.players[0].hand.push(inst(2, 20, 5));
    s.players[0].hand.push(inst(3, 21, 2));
    s.players[0].hand.push(inst(4, 11, 1));
    let mut events: Vec<Event> = Vec::new();
    assert!(matches!(apply_fuse_start(&db, &mut s, 9, &mut events), Err(Illegal::NotLegal)));
    assert!(matches!(apply_fuse_start(&db, &mut s, 3, &mut events), Err(Illegal::NotLegal)));
    assert!(events.is_empty());
    assert!(apply_fuse_start(&db, &mut s, 0, &mut events).is_ok());
    match &s.phase {
        Phase::Choice { player, node: ChoiceNode::FusePartners { host, options, picked } } => {
            assert_eq!(*player, PlayerId::A);
            assert_eq!(*host, 0);
            assert_eq!(options, &vec![2u8, 3u8]);
            assert!(picked.is_empty());
        }
        _ => panic!("expected a fusion choice"),
    }
    assert_eq!(events.len(), 1);
    assert!(matches!(&events[0], Event::ChoiceOffered { player: PlayerId::A, .. }));
}

#[test]
fn printed_trigger_tags_come_sorted_and_once() {
    let modes = vec![Mode::Enhance { cost: 5, printed: String::new(), effects: vec![], replaces_base: None }];
    let card = follower_card(50, 2, vec![last_words(vec![]), fanfare(vec![]), last_words(vec![])], modes, None);
    assert_eq!(
        card.printed_trigger_tags(),
        vec![String::from("enhance"), String::from("fanfare"), String::from("lastWords")]
    );
    assert_eq!(CardInstance::from_card(&card, 3).printed_tags, card.printed_trigger_tags());
}

#[test]
fn crest_and_card_with_the_same_abilities_leave_the_same_names_unbound() {
    let destroy = |name: &str| Effect::Destroy {
        printed: None,
        as_bind: None,
        when: None,
        select: Selector::Bound(BoundSelector { pick: BoundPick::Bound, ref_name: String::from(name) }),
    };
    let abilities = || vec![fanfare(vec![destroy("zeta"), destroy("alpha")])];
    let card = follower_card(60, 1, abilities(), vec![], None);
    let crest = Crest {
        id: String::from("crest:00000060"),
        name: String::from("Sigil"),
        granted_by: vec![],
        faith: false,
        text: String::new(),
        countdown: None,
        abilities: Some(abilities()),
    };
    assert_eq!(crest.unbound_refs(), card.unbound_refs());
    assert_eq!(crest.unbound_refs(), vec![String::from("alpha"), String::from("zeta")]);
    let bare = Crest { abilities: None, ..crest };
    assert!(bare.unbound_refs().is_empty());
}
