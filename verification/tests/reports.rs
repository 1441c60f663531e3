use arena_engine::card::{Card, CardId, CardOrCrest, CatalogRecord, Class, CrestGainId, Rarity};
use arena_engine::db::CardDb;
use arena_engine::oracle::{card_label, Divergence};
use arena_engine::oracle::{cards_at_path, path_slot_of, slot_card_id, Json};
use arena_engine::card::{Ability, Amount, BoundHas, BoundPick, BoundSelector, Condition, Effect, Filter, Selector};
use arena_engine::error::LoadError;

fn named(id: u32, name: &str) -> Card {
    Card::Follower {
        id: CardId(id),
        name: String::from(name),
        class: Class::Neutral,
        set: 1,
        rarity: Rarity::Bronze,
        token: false,
        cost: 1,
        text: String::new(),
        attack: 1,
        defense: 1,
        tribes: Vec::new(),
        traits: None,
        abilities: None,
        modes: None,
        fuse: None,
        vars: None,
    }
}

fn record(id: &str, name: &str) -> CatalogRecord {
    CatalogRecord {
        id: String::from(id),
        name: String::from(name),
        kind: String::from("follower"),
        class: String::from("neutral"),
        tribes: Vec::new(),
        rarity: String::from("bronze"),
        cost: 1,
        attack: 1,
        defense: 1,
        set: 1,
        token: false,
        rotation: false,
        text: String::new(),
        deck_enabled_num: 3,
        related_card_ids: Vec::new(),
        card_image_hash: None,
        card_banner_image_hash: None,
        evo_card_image_hash: None,
        evo_card_banner_image_hash: None,
    }
}

#[test]
fn card_label_prefers_authored_then_catalog_names() {
    let mut db = CardDb::empty();
    assert!(db.load_entry("cards/10000001.json", CardOrCrest::Card(named(10000001, "Goblin")), false).is_ok());
    db.add_catalog(String::from("10000002"), record("10000002", "Fairy"));
    assert_eq!(card_label(&db, "10000001"), "Goblin (10000001)");
    assert_eq!(card_label(&db, "10000002"), "Fairy (10000002)");
    assert_eq!(card_label(&db, "10000003"), "10000003");
    assert_eq!(card_label(&db, "token"), "token");
}

#[test]
fn report_line_lists_every_part() {
    let d = Divergence {
        i: 107,
        path: String::from("players.a.field[0].attack"),
        arena: String::from("3"),
        trace: String::from("4"),
        action: String::from("5"),
        cards: vec![String::from("Goblin (10000001)"), String::from("Fairy (10000002)")],
    };
    assert_eq!(
        d.report_line("t1"),
        "t1 i=107 players.a.field[0].attack arena=3 trace=4 action=5 cards=Goblin (10000001), Fairy (10000002)"
    );
    assert_eq!(d.side(), "a");
    let empty = Divergence {
        i: 0,
        path: String::from("turn"),
        arena: String::new(),
        trace: String::new(),
        action: String::from("null"),
        cards: Vec::new(),
    };
    assert_eq!(empty.report_line("t2"), "t2 i=0 turn arena= trace= action=null cards=");
}

#[test]
fn crest_gain_ids_are_crest_and_eight_digits() {
    assert_eq!(CrestGainId::parse("crest:12345678").map(|g| g.0), Some(String::from("crest:12345678")));
    assert!(CrestGainId::parse("faith:12345678").is_none());
    assert!(CrestGainId::parse("crest:1234567").is_none());
    assert!(CrestGainId::parse("crest:1234567x").is_none());
}

#[test]
fn snapshot_paths_name_hand_and_field_slots() {
    assert_eq!(path_slot_of("players.a.field[0].attack"), Some(("a", "field", 0)));
    assert_eq!(path_slot_of("players.b.hand[+12]"), Some(("b", "hand", 12)));
    assert_eq!(path_slot_of("players.c.hand[1]"), None);
    assert_eq!(path_slot_of("players.a.deck[1]"), None);
    assert_eq!(path_slot_of("players.a.field[x]"), None);
    assert_eq!(path_slot_of("players.a.field[1"), None);
    assert_eq!(path_slot_of("players.a.field[]"), None);
    assert_eq!(path_slot_of("players.a.field[99999999999999999999999]"), None);
}

#[test]
fn cards_at_path_reads_both_snapshots_once() {
    let mut db = CardDb::empty();
    assert!(db.load_entry("cards/10000001.json", CardOrCrest::Card(named(10000001, "Goblin")), false).is_ok());
    let snap = |card: &str| -> Json {
        let slot = Json::Object(vec![(String::from("card"), Json::Str(String::from(card)))]);
        let seat = Json::Object(vec![(String::from("field"), Json::Array(vec![slot]))]);
        let players = Json::Object(vec![(String::from("a"), seat)]);
        Json::Object(vec![(String::from("players"), players)])
    };
    let got = snap("10000001");
    let want = snap("10000009");
    assert_eq!(slot_card_id("players.a.field[0].defense", &got), Some(String::from("10000001")));
    assert_eq!(slot_card_id("players.a.field[1].defense", &got), None);
    assert_eq!(slot_card_id("turn", &got), None);
    assert_eq!(
        cards_at_path(&db, "players.a.field[0].defense", &got, &want),
        vec![String::from("Goblin (10000001)"), String::from("10000009")]
    );
    assert_eq!(cards_at_path(&db, "players.a.field[0].defense", &got, &got), vec![String::from("Goblin (10000001)")]);
    assert!(cards_at_path(&db, "turn", &got, &want).is_empty());
}

#[test]
fn unbound_names_come_out_in_order_and_the_first_is_reported() {
    let destroy = |name: &str| Effect::Destroy {
        printed: None,
        as_bind: None,
        when: None,
        select: Selector::Bound(BoundSelector { pick: BoundPick::Bound, ref_name: String::from(name) }),
    };
    let fanfare = Ability::Fanfare {
        printed: String::new(),
        effects: vec![destroy("zeta"), destroy("alpha"), destroy("mid"), destroy("alpha")],
        zone: None,
        once_per_turn: None,
        when: None,
        replaces: None,
    };
    let mut card = named(10000005, "Binder");
    if let Card::Follower { abilities, .. } = &mut card {
        *abilities = Some(vec![fanfare]);
    }
    assert_eq!(card.unbound_refs(), vec![String::from("alpha"), String::from("mid"), String::from("zeta")]);
    let mut db = CardDb::empty();
    match db.load_entry("cards/10000005.json", CardOrCrest::Card(card), false) {
        Err(LoadError::UnboundRef { card, name }) => {
            assert_eq!(card, "10000005");
            assert_eq!(name, "alpha");
        }
        _ => panic!("expected an unbound name"),
    }
}

fn open_filter() -> Filter {
    Filter {
        all: None,
        any: None,
        not: None,
        tribe: None,
        card: None,
        cards: None,
        not_card: None,
        kind: None,
        class: None,
        cost_eq: None,
        cost_lte: None,
        cost_gte: None,
        cost_in: None,
        base_cost_eq: None,
        base_cost_lte: None,
        base_cost_gte: None,
        base_cost_in: None,
        attack_lte: None,
        attack_gte: None,
        defense_lte: None,
        defense_gte: None,
        evolved: None,
        unevolved: None,
        damaged: None,
        has_trait: None,
        enhanced: None,
        same_cost_group: None,
        has_last_words: None,
        has_spellboost: None,
        destroyed_this_match: None,
        did_not_attack_this_turn: None,
        super_evolved: None,
        not_bound: None,
    }
}

#[test]
fn names_in_random_split_bodies_and_ability_gates_count_as_used() {
    let destroy = |name: &str| Effect::Destroy {
        printed: None,
        as_bind: None,
        when: None,
        select: Selector::Bound(BoundSelector { pick: BoundPick::Bound, ref_name: String::from(name) }),
    };
    let split = Effect::RandomSplit {
        printed: None,
        as_bind: None,
        when: None,
        keys: Vec::new(),
        times: Amount::Int(2),
        effects: vec![destroy("inner")],
    };
    let gate = Condition::BoundHas {
        bound_has: BoundHas { ref_name: String::from("gate"), filter: open_filter(), side: None },
    };
    let fanfare = Ability::Fanfare {
        printed: String::new(),
        effects: vec![split],
        zone: None,
        once_per_turn: None,
        when: Some(gate),
        replaces: None,
    };
    let mut card = named(10000006, "Splitter");
    if let Card::Follower { abilities, .. } = &mut card {
        *abilities = Some(vec![fanfare]);
    }
    assert_eq!(card.unbound_refs(), vec![String::from("gate"), String::from("inner")]);
}

#[test]
fn a_database_with_a_repeated_card_id_is_not_well_formed() {
    let mut db = CardDb::empty();
    assert!(db.is_wf());
    assert!(db.load_entry("cards/10000001.json", CardOrCrest::Card(named(10000001, "Goblin")), false).is_ok());
    assert!(db.is_wf());
    db.cards.push(named(10000001, "Goblin again"));
    assert!(!db.is_wf());
    let mut bare = CardDb::empty();
    bare.cards.push(named(10000002, "Fairy"));
    assert!(!bare.is_wf());
}
