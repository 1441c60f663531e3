use arena_engine::action::Action;
use arena_engine::ids::{AttackTarget, Slot};
use arena_engine::lethal::{action_rank, consider, lethal_action_kind, LethalActionKind};

#[test]
fn consider_is_exhaustive_allowlist() {
    let kinds = [
        Action::Play { hand: 0 },
        Action::Attack {
            attacker: Slot(0),
            target: AttackTarget::Leader,
        },
        Action::Evolve {
            slot: Slot(0),
            super_evolve: false,
        },
        Action::Engage { slot: Slot(0) },
        Action::Fuse { host: 0 },
        Action::BonusPp,
        Action::Choose(0),
        Action::Confirm,
    ];
    for a in &kinds {
        assert!(consider(a), "{a:?} must be searched");
        assert!(lethal_action_kind(a).is_some(), "{a:?}");
    }
    assert!(!consider(&Action::EndTurn));
    assert!(!consider(&Action::MulliganConfirm { swap: [false; 4] }));
    assert!(lethal_action_kind(&Action::EndTurn).is_none());
}

#[test]
fn lethal_kind_names_each_searched_action() {
    assert_eq!(
        lethal_action_kind(&Action::Play { hand: 3 }),
        Some(LethalActionKind::Play)
    );
    assert_eq!(
        lethal_action_kind(&Action::Attack {
            attacker: Slot(1),
            target: AttackTarget::Slot(Slot(2)),
        }),
        Some(LethalActionKind::Attack)
    );
    assert_eq!(lethal_action_kind(&Action::BonusPp), Some(LethalActionKind::BonusPp));
    assert_eq!(lethal_action_kind(&Action::Choose(2)), Some(LethalActionKind::Choose));
    assert!(lethal_action_kind(&Action::MulliganConfirm { swap: [true; 4] }).is_none());
}

#[test]
fn rank_orders_leader_attacks_first() {
    let leader = action_rank(&Action::Attack {
        attacker: Slot(0),
        target: AttackTarget::Leader,
    });
    let follower = action_rank(&Action::Attack {
        attacker: Slot(0),
        target: AttackTarget::Slot(Slot(1)),
    });
    assert_eq!(leader, 0);
    assert_eq!(follower, 1);
    assert_eq!(action_rank(&Action::Play { hand: 0 }), 4);
    assert_eq!(action_rank(&Action::EndTurn), 10);
}
