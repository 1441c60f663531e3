use arena_engine::card::{
    Effect,
    Ability, Amount, Card, CardId, CardKind, CardOrCrest, Class, Filter, FilterKind, OrderBy, PoolPick,
    PoolSelector, Rarity, RefPick, RefSelector, Selector, SelectorKind, Side, Traits, Tribe, TribeOrList, Zone,
};
use arena_engine::db::CardDb;
use arena_engine::ids::PlayerId;
use arena_engine::select::{
    bind_discard_as_cards, maybe_bind,
    extremum_without_roll, filter_wants_destroyed, inst_matches_filter, kind_ok, live_field_subject,
    pool_candidates, resolve_bound, resolve_select, source_as_target,
};
use arena_engine::state::{
    BoundRef, CardInstance, DestroyedRecord, InstanceFlags, Phase, PlayerState, SourceRef, State, TargetOpt,
};

fn follower(id: u32, card: u32, cost: i32, attack: i32, defense: i32) -> CardInstance {
    CardInstance {
        id,
        card: CardId(card),
        kind: CardKind::Follower,
        class: Class::Neutral,
        tribes: Vec::new(),
        base_cost: cost,
        cost,
        attack,
        defense,
        max_defense: defense,
        evolved: false,
        super_evolved: false,
        traits: Traits::default(),
        countdown: None,
        printed_tags: Vec::new(),
        flags: InstanceFlags {
            summoning_sick: false,
            attacks_left: 1,
            engaged_this_turn: false,
            attacked_this_turn: false,
            fused_this_turn: false,
            was_fused: false,
            enhanced: false,
            fused_kinds: Vec::new(),
            ambush_active: false,
            eot_attack: 0,
            eot_defense: 0,
            eot_cost: None,
        },
        once_used: Vec::new(),
        spellboost_count: 0,
        skybound: 0,
        vars: Vec::new(),
        granted: Vec::new(),
        temp_traits: Vec::new(),
        sequence_index: 0,
    }
}

fn match_state() -> State {
    State {
        players: [PlayerState::new(), PlayerState::new()],
        turn: 1,
        active: PlayerId::A,
        first: PlayerId::A,
        phase: Phase::Main,
        winner: None,
        next_instance: 100,
        pending_play_rally: None,
        event_base_cost: None,
        event_inst_id: None,
        event_subject: None,
        combat_opposing: None,
        attacking_follower: false,
        attack_target_is_leader: false,
        bindings: Vec::new(),
        bind_append: false,
    }
}

fn any_filter() -> Filter {
    Filter {
        all: None,
        any: None,
        not: None,
        tribe: None,
        card: None,
        cards: None,
        not_card: None,
        kind: None,
        class: None,
        cost_eq: None,
        cost_lte: None,
        cost_gte: None,
        cost_in: None,
        base_cost_eq: None,
        base_cost_lte: None,
        base_cost_gte: None,
        base_cost_in: None,
        attack_lte: None,
        attack_gte: None,
        defense_lte: None,
        defense_gte: None,
        evolved: None,
        unevolved: None,
        damaged: None,
        has_trait: None,
        enhanced: None,
        same_cost_group: None,
        has_last_words: None,
        has_spellboost: None,
        destroyed_this_match: None,
        did_not_attack_this_turn: None,
        super_evolved: None,
        not_bound: None,
    }
}

fn pool(pick: PoolPick, side: Side, zone: Zone, kind: SelectorKind) -> PoolSelector {
    PoolSelector {
        pick,
        side,
        zone,
        kind,
        filter: None,
        count: None,
        other: None,
        include_leader: None,
        order_by: None,
    }
}

fn printed_follower(id: u32, tribes: Vec<Tribe>) -> Card {
    Card::Follower {
        id: CardId(id),
        name: String::from("Unit"),
        class: Class::Neutral,
        set: 1,
        rarity: Rarity::Bronze,
        token: false,
        cost: 3,
        text: String::new(),
        attack: 2,
        defense: 3,
        tribes,
        traits: None,
        abilities: None,
        modes: None,
        fuse: None,
        vars: None,
    }
}

#[test]
fn cost_bounds_and_kind_filter_instances() {
    let s = match_state();
    let c = follower(1, 10, 3, 2, 2);
    let mut f = any_filter();
    f.cost_lte = Some(Box::new(Amount::Int(3)));
    f.kind = Some(FilterKind::Follower);
    assert!(inst_matches_filter(&s, PlayerId::A, &c, &f));
    f.cost_lte = Some(Box::new(Amount::Int(2)));
    assert!(!inst_matches_filter(&s, PlayerId::A, &c, &f));
    let mut g = any_filter();
    g.kind = Some(FilterKind::Spell);
    assert!(!inst_matches_filter(&s, PlayerId::A, &c, &g));
}

#[test]
fn all_any_and_not_combine_filters() {
    let s = match_state();
    let mut c = follower(1, 10, 3, 2, 2);
    c.tribes.push(Tribe::Golem);
    let mut golem = any_filter();
    golem.tribe = Some(TribeOrList::One(Tribe::Golem));
    let mut cheap = any_filter();
    cheap.cost_lte = Some(Box::new(Amount::Int(1)));
    let mut both = any_filter();
    both.all = Some(vec![golem, cheap]);
    assert!(!inst_matches_filter(&s, PlayerId::A, &c, &both));
    let mut golem = any_filter();
    golem.tribe = Some(TribeOrList::Many(vec![Tribe::Loot, Tribe::Golem]));
    let mut cheap = any_filter();
    cheap.cost_lte = Some(Box::new(Amount::Int(1)));
    let mut either = any_filter();
    either.any = Some(vec![cheap, golem]);
    assert!(inst_matches_filter(&s, PlayerId::A, &c, &either));
    let mut not_either = any_filter();
    not_either.not = Some(Box::new(either));
    assert!(!inst_matches_filter(&s, PlayerId::A, &c, &not_either));
}

#[test]
fn same_cost_group_needs_the_event_and_skips_its_subject() {
    let mut s = match_state();
    let c = follower(5, 10, 3, 2, 2);
    let mut f = any_filter();
    f.same_cost_group = Some(true);
    assert!(!inst_matches_filter(&s, PlayerId::A, &c, &f));
    s.event_base_cost = Some(3);
    assert!(inst_matches_filter(&s, PlayerId::A, &c, &f));
    s.event_inst_id = Some(5);
    assert!(!inst_matches_filter(&s, PlayerId::A, &c, &f));
}

#[test]
fn not_bound_excludes_bound_field_instances() {
    let mut s = match_state();
    let c = follower(5, 10, 3, 2, 2);
    let mut f = any_filter();
    f.not_bound = Some(String::from("picked"));
    assert!(inst_matches_filter(&s, PlayerId::A, &c, &f));
    s.bindings.push((String::from("picked"), vec![BoundRef::Field { player: PlayerId::A, id: 5, card: CardId(10), kind: CardKind::Follower }]));
    assert!(!inst_matches_filter(&s, PlayerId::A, &c, &f));
}

#[test]
fn last_words_counts_printed_and_granted() {
    let s = match_state();
    let mut c = follower(5, 10, 3, 2, 2);
    let mut f = any_filter();
    f.has_last_words = Some(true);
    assert!(!inst_matches_filter(&s, PlayerId::A, &c, &f));
    c.printed_tags.push(String::from("lastWords"));
    assert!(inst_matches_filter(&s, PlayerId::A, &c, &f));
}

#[test]
fn enemy_choice_skips_aura_but_random_does_not() {
    let db = CardDb::empty();
    let mut s = match_state();
    let mut aura = follower(11, 10, 2, 1, 1);
    aura.traits.aura = Some(true);
    s.players[1].field[0] = Some(aura);
    s.players[1].field[1] = Some(follower(12, 10, 2, 1, 1));
    let choose = pool(PoolPick::Choose, Side::Enemy, Zone::Field, SelectorKind::Follower);
    assert_eq!(
        pool_candidates(&db, &s, PlayerId::A, None, &choose, None),
        vec![TargetOpt::Slot { player: PlayerId::B, slot: 1 }]
    );
    let random = pool(PoolPick::Random, Side::Enemy, Zone::Field, SelectorKind::Follower);
    assert_eq!(
        pool_candidates(&db, &s, PlayerId::A, None, &random, None),
        vec![TargetOpt::Slot { player: PlayerId::B, slot: 0 }, TargetOpt::Slot { player: PlayerId::B, slot: 1 }]
    );
}

#[test]
fn character_pools_include_the_leader_and_other_skips_the_source() {
    let db = CardDb::empty();
    let mut s = match_state();
    s.players[0].field[0] = Some(follower(1, 10, 2, 1, 1));
    s.players[0].field[1] = Some(follower(2, 10, 2, 1, 0));
    s.players[0].field[2] = Some(follower(3, 10, 2, 1, 1));
    let mut p = pool(PoolPick::All, Side::Ally, Zone::Field, SelectorKind::Character);
    p.other = Some(true);
    let src = Some(SourceRef::Field { player: PlayerId::A, id: 3 });
    assert_eq!(
        pool_candidates(&db, &s, PlayerId::A, src, &p, None),
        vec![TargetOpt::Slot { player: PlayerId::A, slot: 0 }, TargetOpt::Leader { player: PlayerId::A }]
    );
}

#[test]
fn hand_pool_can_leave_the_played_card_out() {
    let db = CardDb::empty();
    let mut s = match_state();
    s.players[0].hand.push(follower(1, 10, 2, 1, 1));
    s.players[0].hand.push(follower(2, 10, 2, 1, 1));
    let p = pool(PoolPick::Choose, Side::Ally, Zone::Hand, SelectorKind::Card);
    assert_eq!(
        pool_candidates(&db, &s, PlayerId::A, None, &p, Some(0)),
        vec![TargetOpt::Hand { player: PlayerId::A, pos: 1 }]
    );
}

#[test]
fn destroyed_card_picks_list_every_record() {
    let mut db = CardDb::empty();
    assert!(db.load_entry("00000010.json", CardOrCrest::Card(printed_follower(10, vec![Tribe::Golem])), false).is_ok());
    let mut s = match_state();
    let rec = DestroyedRecord {
        card: CardId(10),
        kind: CardKind::Follower,
        base_cost: 3,
        owner: PlayerId::A,
        from_field: true,
    };
    s.players[0].destroyed_history.push(rec);
    s.players[0].destroyed_history.push(rec);
    let mut f = any_filter();
    f.destroyed_this_match = Some(true);
    f.tribe = Some(TribeOrList::One(Tribe::Golem));
    let mut p = pool(PoolPick::RandomDistinct, Side::Ally, Zone::Cemetery, SelectorKind::Follower);
    p.filter = Some(f);
    assert_eq!(
        pool_candidates(&db, &s, PlayerId::A, None, &p, None),
        vec![TargetOpt::Card(CardId(10)), TargetOpt::Card(CardId(10))]
    );
}

#[test]
fn destroyed_history_filter_reads_the_printed_card() {
    let mut db = CardDb::empty();
    assert!(db.load_entry("00000010.json", CardOrCrest::Card(printed_follower(10, Vec::new())), false).is_ok());
    let mut s = match_state();
    s.players[1].destroyed_history.push(DestroyedRecord {
        card: CardId(10),
        kind: CardKind::Follower,
        base_cost: 5,
        owner: PlayerId::B,
        from_field: false,
    });
    let mut inner = any_filter();
    inner.destroyed_this_match = Some(true);
    let mut cost = any_filter();
    cost.base_cost_gte = Some(Box::new(Amount::Int(5)));
    let mut f = any_filter();
    f.all = Some(vec![inner, cost]);
    assert!(filter_wants_destroyed(&f));
    let mut p = pool(PoolPick::All, Side::Any, Zone::Cemetery, SelectorKind::Follower);
    p.filter = Some(f);
    assert_eq!(pool_candidates(&db, &s, PlayerId::A, None, &p, None), vec![TargetOpt::Card(CardId(10))]);
}

#[test]
fn leftmost_takes_the_literal_count() {
    let db = CardDb::empty();
    let mut s = match_state();
    for i in 0..4 {
        s.players[1].field[i] = Some(follower(20 + i as u32, 10, 2, 1, 1));
    }
    let mut p = pool(PoolPick::Leftmost, Side::Enemy, Zone::Field, SelectorKind::Follower);
    p.count = Some(Amount::Int(2));
    let src = SourceRef::Leader { player: PlayerId::A };
    let got = resolve_select(&db, &s, PlayerId::A, src, &Selector::Pool(p));
    assert_eq!(
        got,
        vec![TargetOpt::Slot { player: PlayerId::B, slot: 0 }, TargetOpt::Slot { player: PlayerId::B, slot: 1 }]
    );
}

#[test]
fn lowest_keeps_every_tie_and_highest_keeps_the_first() {
    let mut s = match_state();
    s.players[1].field[0] = Some(follower(20, 10, 2, 1, 4));
    s.players[1].field[1] = Some(follower(21, 10, 2, 1, 1));
    s.players[1].field[2] = Some(follower(22, 10, 2, 1, 1));
    let cands = vec![
        TargetOpt::Slot { player: PlayerId::B, slot: 0 },
        TargetOpt::Slot { player: PlayerId::B, slot: 1 },
        TargetOpt::Slot { player: PlayerId::B, slot: 2 },
    ];
    let mut low = pool(PoolPick::Lowest, Side::Enemy, Zone::Field, SelectorKind::Follower);
    low.order_by = Some(OrderBy::Defense);
    assert_eq!(extremum_without_roll(&s, &low, cands.clone()), vec![cands[1], cands[2]]);
    let mut high = pool(PoolPick::Highest, Side::Enemy, Zone::Field, SelectorKind::Follower);
    high.order_by = Some(OrderBy::Defense);
    assert_eq!(extremum_without_roll(&s, &high, cands.clone()), vec![cands[0]]);
}

#[test]
fn self_reference_follows_the_source() {
    let db = CardDb::empty();
    let mut s = match_state();
    s.players[0].field[3] = Some(follower(7, 10, 2, 1, 1));
    let sel = Selector::Ref(RefSelector { pick: RefPick::Self_ });
    let src = SourceRef::Field { player: PlayerId::A, id: 7 };
    assert_eq!(resolve_select(&db, &s, PlayerId::A, src, &sel), vec![TargetOpt::Slot { player: PlayerId::A, slot: 3 }]);
    assert_eq!(
        source_as_target(&s, SourceRef::Spell { player: PlayerId::B, card: CardId(1) }),
        Some(TargetOpt::Leader { player: PlayerId::B })
    );
    assert_eq!(source_as_target(&s, SourceRef::Hand { player: PlayerId::A, id: 9 }), None);
}

#[test]
fn event_subject_is_found_again_on_the_field() {
    let mut s = match_state();
    s.players[1].field[2] = Some(follower(7, 10, 2, 1, 1));
    let hint = Some(TargetOpt::Slot { player: PlayerId::A, slot: 0 });
    assert_eq!(live_field_subject(&s, hint, Some(7)), Some(TargetOpt::Slot { player: PlayerId::B, slot: 2 }));
    assert_eq!(live_field_subject(&s, hint, Some(8)), None);
    assert_eq!(live_field_subject(&s, hint, None), hint);
}

#[test]
fn bound_refs_resolve_to_live_targets() {
    let mut s = match_state();
    s.players[0].hand.push(follower(4, 10, 2, 1, 1));
    s.bindings.push((
        String::from("x"),
        vec![
            BoundRef::Hand { player: PlayerId::A, id: 4 },
            BoundRef::Deck { player: PlayerId::A, id: 99 },
            BoundRef::Card(CardId(12)),
        ],
    ));
    assert_eq!(
        resolve_bound(&s, "x"),
        vec![TargetOpt::Hand { player: PlayerId::A, pos: 0 }, TargetOpt::Card(CardId(12))]
    );
    assert!(resolve_bound(&s, "y").is_empty());
}

#[test]
fn selector_kinds_admit_instances() {
    let c = follower(1, 10, 2, 1, 1);
    assert!(kind_ok(&c, SelectorKind::Character));
    assert!(kind_ok(&c, SelectorKind::Card));
    assert!(!kind_ok(&c, SelectorKind::Amulet));
    assert!(!kind_ok(&c, SelectorKind::Leader));
}

#[test]
fn granted_last_words_counts() {
    let s = match_state();
    let mut c = follower(5, 10, 3, 2, 2);
    c.granted.push(Ability::LastWords {
        printed: String::new(),
        effects: Vec::new(),
        zone: None,
        once_per_turn: None,
        when: None,
        replaces: None,
    });
    let mut f = any_filter();
    f.has_last_words = Some(true);
    assert!(inst_matches_filter(&s, PlayerId::A, &c, &f));
}

fn destroy_as(name: Option<&str>) -> Effect {
    Effect::Destroy {
        printed: None,
        as_bind: name.map(String::from),
        when: None,
        select: Selector::Ref(RefSelector { pick: RefPick::Self_ }),
    }
}

#[test]
fn bindings_replace_or_append_by_mode() {
    let mut s = match_state();
    s.players[0].field[0] = Some(follower(4, 10, 2, 1, 1));
    let slot = TargetOpt::Slot { player: PlayerId::A, slot: 0 };
    let leader = TargetOpt::Leader { player: PlayerId::B };
    let empty = TargetOpt::Slot { player: PlayerId::A, slot: 3 };
    maybe_bind(&mut s, &destroy_as(None), &[slot]);
    assert!(s.bindings.is_empty());
    maybe_bind(&mut s, &destroy_as(Some("x")), &[slot, empty]);
    assert_eq!(s.bindings.len(), 1);
    assert_eq!(
        s.bindings[0].1,
        vec![BoundRef::Field { player: PlayerId::A, id: 4, card: CardId(10), kind: CardKind::Follower }]
    );
    maybe_bind(&mut s, &destroy_as(Some("x")), &[leader]);
    assert_eq!(s.bindings[0].1, vec![BoundRef::Leader { player: PlayerId::B }]);
    s.bind_append = true;
    maybe_bind(&mut s, &destroy_as(Some("x")), &[slot]);
    assert_eq!(s.bindings[0].1.len(), 2);
    maybe_bind(&mut s, &destroy_as(Some("y")), &[leader]);
    assert_eq!(s.bindings.len(), 2);
    assert_eq!(s.bindings[1].0, "y");
}

#[test]
fn discards_are_bound_by_card_id() {
    let mut s = match_state();
    s.players[1].hand.push(follower(6, 33, 2, 1, 1));
    let t = [TargetOpt::Hand { player: PlayerId::B, pos: 0 }, TargetOpt::Hand { player: PlayerId::B, pos: 5 }, TargetOpt::Card(CardId(7))];
    s.bind_append = true;
    s.bindings.push((String::from("d"), vec![BoundRef::Card(CardId(1))]));
    bind_discard_as_cards(&mut s, &destroy_as(Some("d")), &t);
    assert_eq!(s.bindings[0].1, vec![BoundRef::Card(CardId(33)), BoundRef::Card(CardId(7))]);
}
