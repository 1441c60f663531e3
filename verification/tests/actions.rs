use arena_engine::action::{acting_player, from_neutral, to_neutral, Action};
use arena_engine::action_id::ActionId;
use arena_engine::ids::{AttackTarget, PlayerId, Slot};
use arena_engine::state::{Phase, PlayerState, State};
use arena_engine::trace::{AttackTargetJson, LeaderWord, NeutralAction};

fn match_state(phase: Phase) -> State {
    State {
        players: [PlayerState::new(), PlayerState::new()],
        turn: 3,
        active: PlayerId::B,
        first: PlayerId::A,
        phase,
        winner: None,
        next_instance: 100,
        pending_play_rally: None,
        event_base_cost: None,
        event_inst_id: None,
        event_subject: None,
        combat_opposing: None,
        attacking_follower: false,
        attack_target_is_leader: false,
        bindings: Vec::new(),
        bind_append: false,
    }
}

#[test]
fn action_ids_round_trip_over_the_table() {
    for n in 0..114u8 {
        let a = ActionId(n).to_action();
        assert_eq!(ActionId::from_action(&a), ActionId(n));
    }
    assert_eq!(ActionId::from_action(&Action::EndTurn), ActionId(113));
    assert_eq!(
        ActionId::from_action(&Action::Attack { attacker: Slot(1), target: AttackTarget::Leader }),
        ActionId(36)
    );
}

#[test]
fn the_turn_holder_acts_outside_choices() {
    let s = match_state(Phase::Main);
    assert_eq!(acting_player(&s), PlayerId::B);
    let m = match_state(Phase::Mulligan { player: PlayerId::A });
    assert_eq!(acting_player(&m), PlayerId::A);
}

#[test]
fn attacks_round_trip_through_the_trace_vocabulary() {
    let s = match_state(Phase::Main);
    let a = Action::Attack { attacker: Slot(2), target: AttackTarget::Leader };
    let n = to_neutral(&s, &a);
    match &n {
        NeutralAction::Attack { player, attacker_slot, target } => {
            assert_eq!(player, "b");
            assert_eq!(*attacker_slot, 2);
            assert_eq!(*target, AttackTargetJson::Leader(LeaderWord::Leader));
        }
        other => panic!("unexpected {other:?}"),
    }
    assert_eq!(from_neutral(&s, &n), Some(a));
    let e = Action::EndTurn;
    assert_eq!(from_neutral(&s, &to_neutral(&s, &e)), Some(e));
}

#[test]
fn neutral_actions_map_back_whatever_seat_label_they_carry() {
    let s = match_state(Phase::Main);
    let n = NeutralAction::EndTurn { player: String::from("a") };
    assert_eq!(from_neutral(&s, &n), Some(Action::EndTurn));
    let p = NeutralAction::Play { player: String::from("b"), hand_pos: 4, card: String::from("00000001") };
    assert_eq!(from_neutral(&s, &p), Some(Action::Play { hand: 4 }));
}
