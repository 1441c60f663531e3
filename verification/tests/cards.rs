use arena_engine::card::{Card, CardId, CardKind, CardOrCrest, Class, Rarity, Traits, Tribe};
use arena_engine::db::CardDb;
use arena_engine::error::LoadError;
use arena_engine::state::CardInstance;

fn printed(id: u32) -> Card {
    Card::Follower {
        id: CardId(id),
        name: String::from("Golem"),
        class: Class::Runecraft,
        set: 2,
        rarity: Rarity::Gold,
        token: false,
        cost: 3,
        text: String::new(),
        attack: 2,
        defense: 4,
        tribes: vec![Tribe::Golem],
        traits: None,
        abilities: None,
        modes: None,
        fuse: None,
        vars: None,
    }
}

#[test]
fn card_id_text_round_trips() {
    let id = CardId(10_041_020);
    assert_eq!(id.as_str(), "10041020");
    assert_eq!(CardId::parse("10041020"), Some(id));
    assert_eq!(CardId(7).as_str(), "00000007");
    assert_eq!(CardId::parse("00000007"), Some(CardId(7)));
    assert_eq!(CardId::parse("1004102"), None);
    assert_eq!(CardId::parse("1004102x"), None);
}

#[test]
fn granted_then_removed_traits_clear() {
    let mut t = Traits::default();
    let mut g = Traits::default();
    g.ward = Some(true);
    g.rush = Some(true);
    t.merge_grant(&g);
    assert_eq!(t.ward, Some(true));
    assert_eq!(t.rush, Some(true));
    t.merge_grant(&g);
    assert_eq!(t.ward, Some(true));
    let mut r = Traits::default();
    r.ward = Some(true);
    t.merge_remove(&r);
    assert_ne!(t.ward, Some(true));
    assert_eq!(t.rush, Some(true));
}

#[test]
fn fresh_instance_carries_the_printed_card() {
    let card = printed(55);
    let inst = CardInstance::from_card(&card, 4);
    assert_eq!(inst.id, 4);
    assert_eq!(inst.card, CardId(55));
    assert_eq!(inst.kind, CardKind::Follower);
    assert_eq!((inst.base_cost, inst.cost, inst.attack, inst.defense, inst.max_defense), (3, 3, 2, 4, 4));
    assert_eq!(inst.tribes, vec![Tribe::Golem]);
    assert!(inst.printed_tags.is_empty());
}

#[test]
fn database_refuses_duplicates_and_reports_missing_cards() {
    let mut db = CardDb::empty();
    assert!(db.load_entry("a/00000055.json", CardOrCrest::Card(printed(55)), false).is_ok());
    assert!(db.has_card(CardId(55)));
    assert_eq!(db.card(CardId(55)).unwrap().cost(), 3);
    match db.load_entry("b/00000055.json", CardOrCrest::Card(printed(55)), false) {
        Err(LoadError::Duplicate { id, first, second }) => {
            assert_eq!(id, "00000055");
            assert_eq!(first, "a/00000055.json");
            assert_eq!(second, "b/00000055.json");
        }
        other => panic!("expected a duplicate, got {other:?}"),
    }
    assert!(db.load_entry("b/00000055.json", CardOrCrest::Card(printed(55)), true).is_ok());
    assert!(matches!(db.card(CardId(56)), Err(LoadError::MissingCard(CardId(56)))));
    assert!(!db.has_card(CardId(56)));
}
