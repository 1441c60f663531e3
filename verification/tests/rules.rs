use arena_engine::apply::{
    add_to_hand, apply_bonus, attack_targets, begin_turn, can_evolve, can_toggle_bonus_pp, check_leader_lethal,
    commit_bonus_pp, deal_follower, deal_leader, deal_to_opt, legal_choice,
};
use arena_engine::db::CardDb;
use arena_engine::action::Action;
use arena_engine::card::{CardId, CardKind, Class, Traits};
use arena_engine::event::Event;
use arena_engine::ids::{AttackTarget, PlayerId, Slot};
use arena_engine::state::{
    BonusPp, CardInstance, ChoiceNode, InstanceFlags, LeaderMod, Phase, PlayerState, State, TargetOpt,
};

fn no_traits() -> Traits {
    Traits::default()
}

fn follower(id: u32, card: u32, attack: i32, defense: i32) -> CardInstance {
    CardInstance {
        id,
        card: CardId(card),
        kind: CardKind::Follower,
        class: Class::Neutral,
        tribes: Vec::new(),
        base_cost: 2,
        cost: 2,
        attack,
        defense,
        max_defense: defense,
        evolved: false,
        super_evolved: false,
        traits: no_traits(),
        countdown: None,
        printed_tags: Vec::new(),
        flags: InstanceFlags {
            summoning_sick: false,
            attacks_left: 1,
            engaged_this_turn: false,
            attacked_this_turn: false,
            fused_this_turn: false,
            was_fused: false,
            enhanced: false,
            fused_kinds: Vec::new(),
            ambush_active: false,
            eot_attack: 0,
            eot_defense: 0,
            eot_cost: None,
        },
        once_used: Vec::new(),
        spellboost_count: 0,
        skybound: 0,
        vars: Vec::new(),
        granted: Vec::new(),
        temp_traits: Vec::new(),
        sequence_index: 0,
    }
}

fn match_state() -> State {
    let a = PlayerState::new();
    let mut b = PlayerState::new();
    b.is_second = true;
    State {
        players: [a, b],
        turn: 1,
        active: PlayerId::A,
        first: PlayerId::A,
        phase: Phase::Main,
        winner: None,
        next_instance: 100,
        pending_play_rally: None,
        event_base_cost: None,
        event_inst_id: None,
        event_subject: None,
        combat_opposing: None,
        attacking_follower: false,
        attack_target_is_leader: false,
        bindings: Vec::new(),
        bind_append: false,
    }
}

#[test]
fn ward_follower_must_be_attacked_first() {
    let mut s = match_state();
    let mut warded = follower(10, 1, 1, 3);
    warded.traits.ward = Some(true);
    s.players[1].field[0] = Some(follower(11, 2, 2, 2));
    s.players[1].field[1] = Some(warded);
    let attacker = follower(1, 3, 2, 2);
    let targets = attack_targets(&s, PlayerId::A, 0, &attacker);
    assert_eq!(targets, vec![AttackTarget::Slot(Slot(1))]);
}

#[test]
fn ignoring_ward_opens_every_target() {
    let mut s = match_state();
    let mut warded = follower(10, 1, 1, 3);
    warded.traits.ward = Some(true);
    s.players[1].field[0] = Some(follower(11, 2, 2, 2));
    s.players[1].field[1] = Some(warded);
    let mut attacker = follower(1, 3, 2, 2);
    attacker.traits.ignores_ward = Some(true);
    let targets = attack_targets(&s, PlayerId::A, 0, &attacker);
    assert_eq!(
        targets,
        vec![AttackTarget::Slot(Slot(0)), AttackTarget::Slot(Slot(1)), AttackTarget::Leader]
    );
}

#[test]
fn rush_follower_attacks_followers_only_on_entry() {
    let mut s = match_state();
    s.players[1].field[2] = Some(follower(11, 2, 2, 2));
    let mut attacker = follower(1, 3, 2, 2);
    attacker.flags.summoning_sick = true;
    attacker.traits.rush = Some(true);
    assert_eq!(attack_targets(&s, PlayerId::A, 0, &attacker), vec![AttackTarget::Slot(Slot(2))]);
    attacker.traits.storm = Some(true);
    assert_eq!(
        attack_targets(&s, PlayerId::A, 0, &attacker),
        vec![AttackTarget::Slot(Slot(2)), AttackTarget::Leader]
    );
    attacker.traits.storm = None;
    attacker.traits.rush = None;
    assert!(attack_targets(&s, PlayerId::A, 0, &attacker).is_empty());
}

#[test]
fn ambush_and_intimidate_followers_are_not_targets() {
    let mut s = match_state();
    let mut hidden = follower(10, 1, 1, 3);
    hidden.traits.ambush = Some(true);
    let mut scary = follower(12, 1, 1, 3);
    scary.traits.intimidate = Some(true);
    s.players[1].field[0] = Some(hidden);
    s.players[1].field[1] = Some(scary);
    let attacker = follower(1, 3, 2, 2);
    assert_eq!(attack_targets(&s, PlayerId::A, 0, &attacker), vec![AttackTarget::Leader]);
}

#[test]
fn leader_damage_applies_bonus_then_cap() {
    let mut s = match_state();
    s.players[0].leader_mods.push(LeaderMod {
        max_defense: None,
        damage_cap: None,
        damage_taken_bonus: 1,
        until: None,
    });
    let mut events: Vec<Event> = Vec::new();
    let dealt = deal_leader(&mut s, PlayerId::A, 3, &mut events);
    assert_eq!(dealt, 4);
    assert_eq!(s.players[0].leader_defense, 16);
    s.players[0].leader_mods.push(LeaderMod {
        max_defense: None,
        damage_cap: Some(2),
        damage_taken_bonus: 0,
        until: None,
    });
    let dealt = deal_leader(&mut s, PlayerId::A, 9, &mut events);
    assert_eq!(dealt, 2);
    assert_eq!(s.players[0].leader_defense, 14);
    assert_eq!(events.len(), 2);
    assert!(s.winner.is_none());
}

#[test]
fn lethal_leader_damage_ends_the_match() {
    let mut s = match_state();
    s.players[1].leader_defense = 3;
    let mut events: Vec<Event> = Vec::new();
    let dealt = deal_leader(&mut s, PlayerId::B, 5, &mut events);
    assert_eq!(dealt, 5);
    assert_eq!(s.players[1].leader_defense, 0);
    assert_eq!(s.winner, Some(PlayerId::A));
    assert!(matches!(s.phase, Phase::Terminal));
}

#[test]
fn negative_hit_deals_nothing() {
    let mut s = match_state();
    let mut events: Vec<Event> = Vec::new();
    assert_eq!(deal_leader(&mut s, PlayerId::A, -4, &mut events), 0);
    assert_eq!(s.players[0].leader_defense, 20);
}

#[test]
fn both_leaders_dead_goes_to_the_waiting_seat() {
    let mut s = match_state();
    s.players[0].leader_defense = 0;
    s.players[1].leader_defense = 0;
    check_leader_lethal(&mut s);
    assert_eq!(s.winner, Some(PlayerId::B));
    assert!(matches!(s.phase, Phase::Terminal));
}

#[test]
fn living_leaders_leave_the_match_running() {
    let mut s = match_state();
    check_leader_lethal(&mut s);
    assert!(s.winner.is_none());
    assert!(matches!(s.phase, Phase::Main));
}

#[test]
fn barrier_absorbs_a_hit_and_breaks() {
    let mut s = match_state();
    let mut shielded = follower(10, 1, 1, 3);
    shielded.traits.barrier = Some(true);
    s.players[1].field[0] = Some(shielded);
    let mut events: Vec<Event> = Vec::new();
    assert_eq!(deal_follower(&mut s, PlayerId::B, 0, 5, PlayerId::A, &mut events), 0);
    let after = s.players[1].field[0].as_ref().unwrap();
    assert_eq!(after.defense, 3);
    assert_eq!(after.traits.barrier, None);
    assert_eq!(deal_follower(&mut s, PlayerId::B, 0, 2, PlayerId::A, &mut events), 2);
    assert_eq!(s.players[1].field[0].as_ref().unwrap().defense, 1);
}

#[test]
fn tenth_card_is_destroyed_into_the_cemetery() {
    let mut s = match_state();
    for i in 0..9 {
        add_to_hand(&mut s, PlayerId::A, follower(20 + i, 5, 1, 1));
    }
    assert_eq!(s.players[0].hand.len(), 9);
    add_to_hand(&mut s, PlayerId::A, follower(40, 6, 1, 1));
    assert_eq!(s.players[0].hand.len(), 9);
    assert_eq!(s.players[0].cemetery.len(), 1);
    assert_eq!(s.players[0].cemetery[0].id, 40);
    assert_eq!(s.players[0].shadows, 1);
}

#[test]
fn turn_start_grows_and_refills_pp() {
    let mut s = match_state();
    s.players[1].pp_max = 3;
    s.players[1].pp = 0;
    let mut events: Vec<Event> = Vec::new();
    assert!(begin_turn(&mut s, PlayerId::B, &mut events).is_ok());
    assert_eq!(s.active, PlayerId::B);
    assert_eq!(s.players[1].pp_max, 4);
    assert_eq!(s.players[1].pp, 4);
    assert_eq!(s.players[1].turns_taken, 1);
    s.players[1].pp_max = 10;
    assert!(begin_turn(&mut s, PlayerId::B, &mut events).is_ok());
    assert_eq!(s.players[1].pp_max, 10);
    assert_eq!(s.players[1].pp, 10);
}

#[test]
fn bonus_pp_toggle_is_undone_by_a_second_toggle() {
    let mut s = match_state();
    s.active = PlayerId::B;
    s.players[1].turns_taken = 2;
    s.players[1].bonus_pp = BonusPp { early_charge: true, late_charge: true, active: false, locked: false };
    assert!(can_toggle_bonus_pp(&s.players[1]));
    let mut events: Vec<Event> = Vec::new();
    assert!(apply_bonus(&mut s, &mut events).is_ok());
    assert!(s.players[1].bonus_pp.active);
    assert!(apply_bonus(&mut s, &mut events).is_ok());
    assert_eq!(
        s.players[1].bonus_pp,
        BonusPp { early_charge: true, late_charge: true, active: false, locked: false }
    );
    assert!(apply_bonus(&mut s, &mut events).is_ok());
    commit_bonus_pp(&mut s.players[1]);
    assert_eq!(
        s.players[1].bonus_pp,
        BonusPp { early_charge: false, late_charge: true, active: false, locked: false }
    );
}

#[test]
fn first_player_has_no_bonus_pp() {
    let mut s = match_state();
    s.players[0].turns_taken = 3;
    s.players[0].bonus_pp = BonusPp { early_charge: true, late_charge: true, active: false, locked: false };
    assert!(!can_toggle_bonus_pp(&s.players[0]));
    let mut events: Vec<Event> = Vec::new();
    assert!(apply_bonus(&mut s, &mut events).is_err());
}

#[test]
fn evolve_unlocks_on_the_documented_turns() {
    let mut s = match_state();
    let unit = follower(1, 3, 2, 2);
    s.players[0].ep = 2;
    s.players[0].sep = 2;
    s.players[0].turns_taken = 4;
    assert!(!can_evolve(&s, PlayerId::A, &unit, false));
    s.players[0].turns_taken = 5;
    assert!(can_evolve(&s, PlayerId::A, &unit, false));
    assert!(!can_evolve(&s, PlayerId::A, &unit, true));
    s.players[0].turns_taken = 7;
    assert!(can_evolve(&s, PlayerId::A, &unit, true));
    s.players[1].ep = 1;
    s.players[1].turns_taken = 4;
    assert!(can_evolve(&s, PlayerId::B, &unit, false));
    s.players[0].evolved_this_turn = true;
    assert!(!can_evolve(&s, PlayerId::A, &unit, false));
}

#[test]
fn choice_listing_collapses_copies_of_one_card() {
    let mut s = match_state();
    s.phase = Phase::Choice {
        player: PlayerId::A,
        node: ChoiceNode::Cards { options: vec![CardId(7), CardId(7), CardId(8)] },
    };
    assert_eq!(legal_choice(&s), vec![Action::Choose(0), Action::Choose(2)]);
}

#[test]
fn target_choices_are_listed_by_position() {
    let mut s = match_state();
    s.phase = Phase::Choice {
        player: PlayerId::A,
        node: ChoiceNode::Targets {
            options: vec![
                TargetOpt::Hand { player: PlayerId::A, pos: 0 },
                TargetOpt::Hand { player: PlayerId::A, pos: 1 },
                TargetOpt::Leader { player: PlayerId::B },
            ],
        },
    };
    assert_eq!(legal_choice(&s), vec![Action::Choose(0), Action::Choose(1), Action::Choose(2)]);
    s.phase = Phase::Choice {
        player: PlayerId::A,
        node: ChoiceNode::MultiPick { options: vec![TargetOpt::Leader { player: PlayerId::B }], picked: Vec::new() },
    };
    assert_eq!(legal_choice(&s), vec![Action::Choose(0), Action::Confirm]);
}

#[test]
fn fuse_choice_offers_unpicked_partners_and_confirm() {
    let mut s = match_state();
    s.players[0].hand.push(follower(30, 7, 1, 1));
    s.players[0].hand.push(follower(31, 8, 1, 1));
    s.players[0].hand.push(follower(32, 9, 1, 1));
    s.phase = Phase::Choice {
        player: PlayerId::A,
        node: ChoiceNode::FusePartners { host: 0, options: vec![1, 2], picked: vec![1] },
    };
    assert_eq!(legal_choice(&s), vec![Action::Choose(1), Action::Confirm]);
}

#[test]
fn damage_targets_reach_leaders_and_followers_only() {
    let db = CardDb::empty();
    let mut s = match_state();
    let mut events: Vec<Event> = Vec::new();
    assert!(deal_to_opt(&db, &mut s, PlayerId::A, &TargetOpt::Leader { player: PlayerId::B }, 4, &mut events).is_ok());
    assert_eq!(s.players[1].leader_defense, 16);
    assert!(deal_to_opt(&db, &mut s, PlayerId::A, &TargetOpt::Card(CardId(5)), 4, &mut events).is_ok());
    assert_eq!(events.len(), 1);
    let mut f = follower(7, 10, 1, 3);
    f.traits.barrier = Some(true);
    s.players[1].field[0] = Some(f);
    let t = TargetOpt::Slot { player: PlayerId::B, slot: 0 };
    assert!(deal_to_opt(&db, &mut s, PlayerId::A, &t, 2, &mut events).is_ok());
    let g = s.players[1].field[0].as_ref().unwrap();
    assert_eq!((g.defense, g.traits.barrier), (3, None));
    assert!(deal_to_opt(&db, &mut s, PlayerId::A, &t, 2, &mut events).is_ok());
    assert_eq!(s.players[1].field[0].as_ref().unwrap().defense, 1);
    assert_eq!(events.len(), 3);
}
