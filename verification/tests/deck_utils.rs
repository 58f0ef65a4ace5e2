use essence_wars::arena::deck_utils::{load_deck, validate_faction_deck_binding};
use essence_wars::bots::factory::BotType;
use essence_wars::decks::{DeckDefinition, DeckRegistry, Faction};
use essence_wars::gamecore::cards::CardDatabase;

fn deck(id: &str, tags: &[&str], commander: u16, cards: Vec<u16>) -> DeckDefinition {
    DeckDefinition {
        id: id.to_string(),
        name: format!("{} deck", id),
        description: String::new(),
        commander,
        cards,
        tags: tags.iter().map(|t| t.to_string()).collect(),
        playstyle: "midrange".to_string(),
    }
}

#[test]
fn test_load_deck_not_found() {
    let registry = DeckRegistry::new();
    let card_db = CardDatabase::empty();
    let result = load_deck(Some("nonexistent"), &registry, &card_db, "1");
    assert!(result.is_err());
    assert!(result.unwrap_err().contains("not found"));
}

#[test]
fn test_load_deck_none_returns_error() {
    let registry = DeckRegistry::new();
    let card_db = CardDatabase::empty();
    let result = load_deck(None, &registry, &card_db, "1");
    assert!(result.is_err());
    assert!(result.unwrap_err().contains("No deck specified"));
}

#[test]
fn test_validate_faction_binding_random_bot() {
    let registry = DeckRegistry::new();
    let result = validate_faction_deck_binding(&BotType::Random, Some("argentum_control"), &registry, "Bot 1");
    assert!(result.is_none());
}

#[test]
fn test_validate_faction_binding_no_deck() {
    let registry = DeckRegistry::new();
    let result =
        validate_faction_deck_binding(&BotType::AgentSpecialist(Faction::Argentum), None, &registry, "Bot 1");
    assert!(result.is_none());
}

#[test]
fn load_deck_messages_are_exact() {
    let registry = DeckRegistry::new();
    let card_db = CardDatabase::empty();
    assert_eq!(
        load_deck(None, &registry, &card_db, "2").unwrap_err(),
        "No deck specified for player 2. Use --deck2 <DECK_ID> to specify a deck, or --list-decks to see available decks."
    );
    assert_eq!(
        load_deck(Some("x"), &registry, &card_db, "2").unwrap_err(),
        "Deck 'x' not found. Use --list-decks to see available decks."
    );
}

#[test]
fn load_deck_reports_an_unknown_commander() {
    let mut registry = DeckRegistry::new();
    registry.add(deck("d1", &["argentum"], 1000, vec![1, 2]));
    let card_db = CardDatabase::empty();
    assert_eq!(
        load_deck(Some("d1"), &registry, &card_db, "1").unwrap_err(),
        "Deck 'd1' validation error: Commander 1000 not found"
    );
}

#[test]
fn specialist_on_other_faction_deck_is_warned() {
    let mut registry = DeckRegistry::new();
    registry.add(deck("symbiote_aggro", &["Symbiote", "aggro"], 1001, vec![]));
    registry.add(deck("argentum_control", &["control", "argentum"], 1000, vec![]));
    registry.add(deck("mixed", &["midrange"], 1000, vec![]));
    let b = BotType::AgentSpecialist(Faction::Argentum);
    assert_eq!(validate_faction_deck_binding(&b, Some("argentum_control"), &registry, "Bot 1"), None);
    assert_eq!(
        validate_faction_deck_binding(&b, Some("symbiote_aggro"), &registry, "Bot 1").unwrap(),
        "Warning: Bot 1 (Agent-Argentum) is using a Symbiote deck ('symbiote_aggro'), but specialists work best with their faction's decks.\n  Recommended: Use a Argentum deck for Argentum specialists."
    );
    assert_eq!(
        validate_faction_deck_binding(&b, Some("mixed"), &registry, "Bot 2").unwrap(),
        "Warning: Bot 2 (Agent-Argentum) is using a non-faction deck ('mixed').\n  Recommended: Use a Argentum deck for Argentum specialists."
    );
    assert_eq!(validate_faction_deck_binding(&b, Some("unknown"), &registry, "Bot 1"), None);
    assert_eq!(validate_faction_deck_binding(&BotType::AgentGeneralist, Some("mixed"), &registry, "Bot 1"), None);
}

#[test]
fn registry_add_replaces_by_id() {
    let mut registry = DeckRegistry::new();
    assert!(registry.is_empty());
    registry.add(deck("a", &[], 1, vec![1]));
    registry.add(deck("b", &["obsidion"], 2, vec![2]));
    registry.add(deck("a", &["argentum"], 3, vec![3]));
    assert_eq!(registry.len(), 2);
    assert_eq!(registry.get("a").unwrap().commander, 3);
    assert_eq!(registry.get("b").unwrap().commander, 2);
    assert!(registry.get("c").is_none());
    let obs = registry.decks_for_faction(Faction::Obsidion);
    assert_eq!(obs.len(), 1);
    assert_eq!(obs[0].id, "b");
    assert_eq!(registry.get("a").unwrap().faction(), Some(Faction::Argentum));
    assert_eq!(registry.decks()[0].id, "a");
}
