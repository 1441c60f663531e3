use arena_engine::card::{CardId, CardKind, Class, Traits};
use arena_engine::encode::{choice_option_count, choice_option_len, is_bound, layout, LEN};
use arena_engine::ids::PlayerId;
use arena_engine::state::{BoundRef, CardInstance, ChoiceNode, InstanceFlags, Phase, PlayerState, State, TargetOpt};

fn match_state(phase: Phase) -> State {
    State {
        players: [PlayerState::new(), PlayerState::new()],
        turn: 1,
        active: PlayerId::A,
        first: PlayerId::A,
        phase,
        winner: None,
        next_instance: 100,
        pending_play_rally: None,
        event_base_cost: None,
        event_inst_id: None,
        event_subject: None,
        combat_opposing: None,
        attacking_follower: false,
        attack_target_is_leader: false,
        bindings: Vec::new(),
        bind_append: false,
    }
}

fn unit(id: u32) -> CardInstance {
    CardInstance {
        id,
        card: CardId(5),
        kind: CardKind::Follower,
        class: Class::Neutral,
        tribes: Vec::new(),
        base_cost: 1,
        cost: 1,
        attack: 1,
        defense: 1,
        max_defense: 1,
        evolved: false,
        super_evolved: false,
        traits: Traits::default(),
        countdown: None,
        printed_tags: Vec::new(),
        flags: InstanceFlags {
            summoning_sick: false,
            attacks_left: 1,
            engaged_this_turn: false,
            attacked_this_turn: false,
            fused_this_turn: false,
            was_fused: false,
            enhanced: false,
            fused_kinds: Vec::new(),
            ambush_active: false,
            eot_attack: 0,
            eot_defense: 0,
            eot_cost: None,
        },
        once_used: Vec::new(),
        spellboost_count: 0,
        skybound: 0,
        vars: Vec::new(),
        granted: Vec::new(),
        temp_traits: Vec::new(),
        sequence_index: 0,
    }
}

#[test]
fn layout_tiles_the_feature_vector() {
    let l = layout();
    assert_eq!(LEN, 545);
    assert_eq!(l[0].name, "phase");
    assert_eq!(l[0].offset, 0);
    for w in l.windows(2) {
        assert_eq!(w[1].offset, w[0].offset + w[0].width);
    }
    let last = l[l.len() - 1];
    assert_eq!(last.name, "opp_known_pool_hist");
    assert_eq!(last.offset + last.width, LEN);
}

#[test]
fn option_counts_skip_picked_fuse_partners() {
    let node = ChoiceNode::FusePartners { host: 0, options: vec![1, 2, 3], picked: vec![2] };
    assert_eq!(choice_option_count(&node), 2);
    let s = match_state(Phase::Choice { player: PlayerId::A, node });
    assert_eq!(choice_option_len(&s), 2);
    let t = match_state(Phase::Choice {
        player: PlayerId::B,
        node: ChoiceNode::Targets { options: vec![TargetOpt::Leader { player: PlayerId::A }] },
    });
    assert_eq!(choice_option_len(&t), 1);
    assert_eq!(choice_option_len(&match_state(Phase::Main)), 0);
}

#[test]
fn bound_instances_are_flagged() {
    let mut s = match_state(Phase::Main);
    let c = unit(9);
    assert!(!is_bound(&s, &c));
    s.bindings.push((String::from("t"), vec![BoundRef::Leader { player: PlayerId::A }]));
    assert!(!is_bound(&s, &c));
    s.bindings.push((String::from("u"), vec![BoundRef::Deck { player: PlayerId::B, id: 9 }]));
    assert!(is_bound(&s, &c));
}
