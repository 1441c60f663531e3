use arena_engine::action::{from_neutral, legal_actions_neutral, to_neutral, Action};
use arena_engine::trace::NeutralAction;
use arena_engine::action_id::{legal_ids, legal_mask};
use arena_engine::apply::legal_actions;
use arena_engine::card::{Card, CardId, CardKind, CardOrCrest, Class, Rarity, Traits};
use arena_engine::db::CardDb;
use arena_engine::gates::{board_info, hand_info};
use arena_engine::ids::{AttackTarget, PlayerId, Slot};
use arena_engine::state::{CardInstance, ChoiceNode, InstanceFlags, Phase, PlayerState, State};

fn no_traits() -> Traits {
    Traits::default()
}

fn follower(id: u32, card: u32, attack: i32, defense: i32) -> CardInstance {
    CardInstance {
        id,
        card: CardId(card),
        kind: CardKind::Follower,
        class: Class::Neutral,
        tribes: Vec::new(),
        base_cost: 2,
        cost: 2,
        attack,
        defense,
        max_defense: defense,
        evolved: false,
        super_evolved: false,
        traits: no_traits(),
        countdown: None,
        printed_tags: Vec::new(),
        flags: InstanceFlags {
            summoning_sick: false,
            attacks_left: 1,
            engaged_this_turn: false,
            attacked_this_turn: false,
            fused_this_turn: false,
            was_fused: false,
            enhanced: false,
            fused_kinds: Vec::new(),
            ambush_active: false,
            eot_attack: 0,
            eot_defense: 0,
            eot_cost: None,
        },
        once_used: Vec::new(),
        spellboost_count: 0,
        skybound: 0,
        vars: Vec::new(),
        granted: Vec::new(),
        temp_traits: Vec::new(),
        sequence_index: 0,
    }
}

fn match_state() -> State {
    let a = PlayerState::new();
    let mut b = PlayerState::new();
    b.is_second = true;
    State {
        players: [a, b],
        turn: 1,
        active: PlayerId::A,
        first: PlayerId::A,
        phase: Phase::Main,
        winner: None,
        next_instance: 100,
        pending_play_rally: None,
        event_base_cost: None,
        event_inst_id: None,
        event_subject: None,
        combat_opposing: None,
        attacking_follower: false,
        attack_target_is_leader: false,
        bindings: Vec::new(),
        bind_append: false,
    }
}

fn card(id: u32, cost: i32) -> Card {
    Card::Follower {
        id: CardId(id),
        name: String::from("Knight"),
        class: Class::Neutral,
        set: 1,
        rarity: Rarity::Bronze,
        token: false,
        cost,
        text: String::new(),
        attack: 1,
        defense: 1,
        tribes: Vec::new(),
        traits: None,
        abilities: None,
        modes: None,
        fuse: None,
        vars: None,
    }
}

fn db_with_knight() -> CardDb {
    let mut db = CardDb::empty();
    assert!(db.load_entry("cards/10000001.json", CardOrCrest::Card(card(10000001, 1)), false).is_ok());
    db
}

fn knight_in_hand(id: u32) -> CardInstance {
    let mut k = follower(id, 10000001, 1, 1);
    k.cost = 1;
    k.base_cost = 1;
    k
}

#[test]
fn a_decided_match_has_no_legal_actions() {
    let db = CardDb::empty();
    let mut s = match_state();
    s.winner = Some(PlayerId::B);
    assert!(legal_actions(&db, &s).is_empty());
    let mut t = match_state();
    t.phase = Phase::Terminal;
    assert!(legal_actions(&db, &t).is_empty());
}

#[test]
fn mulligan_offers_every_swap_set_by_mask() {
    let db = CardDb::empty();
    let mut s = match_state();
    s.phase = Phase::Mulligan { player: PlayerId::A };
    let legal = legal_actions(&db, &s);
    assert_eq!(legal.len(), 16);
    assert_eq!(legal[0], Action::MulliganConfirm { swap: [false; 4] });
    assert_eq!(legal[5], Action::MulliganConfirm { swap: [true, false, true, false] });
    assert_eq!(legal[15], Action::MulliganConfirm { swap: [true; 4] });
}

#[test]
fn main_phase_lists_plays_attacks_and_end_turn() {
    let db = db_with_knight();
    let mut s = match_state();
    s.players[0].hand.push(knight_in_hand(5));
    s.players[0].field[0] = Some(follower(1, 10000001, 2, 2));
    assert_eq!(
        legal_actions(&db, &s),
        vec![Action::Attack { attacker: Slot(0), target: AttackTarget::Leader }, Action::EndTurn]
    );
    s.players[0].pp = 1;
    s.players[0].pp_max = 1;
    let legal = legal_actions(&db, &s);
    assert_eq!(
        legal,
        vec![Action::Play { hand: 0 }, Action::Attack { attacker: Slot(0), target: AttackTarget::Leader }, Action::EndTurn]
    );
    let ids: Vec<u8> = legal_ids(&db, &s).iter().map(|i| i.0).collect();
    assert_eq!(ids, vec![16, 30, 113]);
    let mask = legal_mask(&db, &s);
    assert_eq!(mask.iter().filter(|b| **b).count(), 3);
    assert!(mask[16] && mask[30] && mask[113]);
}

#[test]
fn the_bonus_orb_pays_for_a_play() {
    let db = db_with_knight();
    let mut s = match_state();
    s.active = PlayerId::B;
    s.players[1].turns_taken = 2;
    s.players[1].bonus_pp.early_charge = true;
    s.players[1].hand.push(knight_in_hand(5));
    assert_eq!(legal_actions(&db, &s), vec![Action::BonusPp, Action::EndTurn]);
    s.players[1].bonus_pp.active = true;
    assert_eq!(legal_actions(&db, &s), vec![Action::Play { hand: 0 }, Action::BonusPp, Action::EndTurn]);
}

#[test]
fn a_card_barred_from_play_or_unknown_is_not_offered() {
    let db = db_with_knight();
    let mut s = match_state();
    s.players[0].pp = 5;
    let mut barred = knight_in_hand(5);
    barred.traits.cant_be_played = Some(true);
    s.players[0].hand.push(barred);
    let mut stranger = knight_in_hand(6);
    stranger.card = CardId(10000099);
    s.players[0].hand.push(stranger);
    assert_eq!(legal_actions(&db, &s), vec![Action::EndTurn]);
}

#[test]
fn board_info_follows_the_legal_attacks() {
    let db = db_with_knight();
    let mut s = match_state();
    s.players[0].field[0] = Some(follower(1, 10000001, 2, 2));
    let info = board_info(&db, &s, PlayerId::A);
    assert_eq!(info.len(), 1);
    assert!(info[0].can_attack);
    assert!(info[0].can_attack_leader);
    s.players[0].field[0].as_mut().unwrap().flags.attacks_left = 0;
    let info = board_info(&db, &s, PlayerId::A);
    assert!(!info[0].can_attack);
}

#[test]
fn hand_info_says_why_a_card_cannot_be_played() {
    let db = db_with_knight();
    let mut s = match_state();
    s.players[0].hand.push(knight_in_hand(5));
    let info = hand_info(&db, &s, PlayerId::A);
    assert_eq!(info.len(), 1);
    assert!(!info[0].playable);
    assert_eq!(info[0].cost, None);
    assert_eq!(info[0].blocked_reason, Some(String::from("Not enough PP.")));
    s.players[0].pp = 1;
    let info = hand_info(&db, &s, PlayerId::A);
    assert!(info[0].playable);
    assert_eq!(info[0].id, "10000001");
    assert_eq!(info[0].cost, Some(1));
    assert_eq!(info[0].form, Some(String::from("normal")));
    assert_eq!(info[0].blocked_reason, None);
    s.players[1].hand.push(knight_in_hand(6));
    let theirs = hand_info(&db, &s, PlayerId::B);
    assert_eq!(theirs[0].blocked_reason, Some(String::from("Not your turn.")));
}

#[test]
fn neutral_legal_actions_name_the_seat_and_the_card() {
    let db = db_with_knight();
    let mut s = match_state();
    s.players[0].pp = 1;
    s.players[0].hand.push(knight_in_hand(5));
    s.players[0].hand.push(knight_in_hand(6));
    let legal = legal_actions_neutral(&db, &s);
    assert_eq!(legal.len(), 3);
    match &legal[1] {
        NeutralAction::Play { player, hand_pos, card } => {
            assert_eq!(player, "a");
            assert_eq!(*hand_pos, 1);
            assert_eq!(card, "10000001");
        }
        _ => panic!("expected a play"),
    }
    assert!(matches!(&legal[2], NeutralAction::EndTurn { .. }));
}

#[test]
fn every_legal_action_reads_back_from_its_record() {
    let db = db_with_knight();
    let mut s = match_state();
    s.players[0].pp = 1;
    s.players[0].hand.push(knight_in_hand(5));
    s.players[0].field[0] = Some(follower(1, 10000001, 2, 2));
    let mut states = vec![s];
    let mut c = match_state();
    c.phase = Phase::Choice {
        player: PlayerId::A,
        node: ChoiceNode::Cards { options: vec![CardId(7), CardId(7), CardId(8)] },
    };
    states.push(c);
    let mut m = match_state();
    m.phase = Phase::Mulligan { player: PlayerId::A };
    states.push(m);
    for st in &states {
        for a in legal_actions(&db, st) {
            assert_eq!(from_neutral(st, &to_neutral(st, &a)), Some(a));
        }
    }
}
