use essence_wars::gamecore::actions::Action;
use essence_wars::gamecore::cards::{
    CardDatabase, CardDefinition, CardType, CommanderAbility, CommanderDefinition, CommanderTrigger,
    CommanderTriggeredAbility, Faction, Rarity,
};
use essence_wars::gamecore::engine::game_engine::GameEngine;
use essence_wars::gamecore::engine::init::GameInitError;
use essence_wars::gamecore::legal::{legal_action_mask, legal_actions};
use essence_wars::gamecore::state::{GameMode, GameResult, WinReason};
use essence_wars::gamecore::types::{CardId, PlayerId, Slot};

fn creature_card(id: u16, cost: u8, attack: u8, health: u8, keywords: &[&str]) -> CardDefinition {
    CardDefinition {
        id,
        name: format!("Creature {}", id),
        cost,
        card_type: CardType::Creature {
            attack,
            health,
            keywords: keywords.iter().map(|k| k.to_string()).collect(),
            abilities: vec![],
        },
        rarity: Rarity::Common,
        tags: vec![],
    }
}

fn commander(id: u16) -> CommanderDefinition {
    CommanderDefinition {
        id,
        name: format!("Commander {}", id),
        faction: Faction::Neutral,
        rarity: Rarity::Common,
        ability: CommanderAbility::Triggered {
            triggered_ability: CommanderTriggeredAbility {
                trigger: CommanderTrigger::OnKill,
                description: "nothing".to_string(),
                condition: None,
                effects: vec![],
            },
        },
        flavor: None,
    }
}

fn test_db() -> CardDatabase {
    CardDatabase::new_with_commanders(
        vec![creature_card(1, 1, 2, 3, &[]), creature_card(2, 1, 3, 1, &["Rush"])],
        vec![commander(100), commander(101)],
    )
}

fn deck(id: u16) -> Vec<CardId> {
    (0..20).map(|_| CardId(id)).collect()
}

fn snapshot(e: &GameEngine) -> String {
    format!("{:?}", e.state)
}

#[test]
fn unknown_commanders_are_refused() {
    let db = test_db();
    let mut e = GameEngine::new(&db);
    let before = snapshot(&e);
    let r = e.start_game_raw(deck(1), deck(1), CardId(7), CardId(101), 1, GameMode::Attrition);
    assert_eq!(r, Err(GameInitError::CommanderNotFound { commander_id: 7, player: 1 }));
    assert_eq!(snapshot(&e), before);
    let r = e.start_game_raw(deck(1), deck(1), CardId(100), CardId(8), 1, GameMode::Attrition);
    assert_eq!(r, Err(GameInitError::CommanderNotFound { commander_id: 8, player: 2 }));
}

#[test]
fn a_started_game_is_on_turn_one_for_player_one() {
    let db = test_db();
    let mut e = GameEngine::new(&db);
    assert!(e.start_game_raw(deck(1), deck(1), CardId(100), CardId(101), 42, GameMode::Attrition).is_ok());
    assert_eq!(e.turn_number(), 1);
    assert_eq!(e.current_player(), PlayerId(0));
    assert!(!e.is_game_over());
    assert_eq!(e.winner(), None);
}

#[test]
fn every_legal_action_applies_and_end_turn_is_last() {
    let db = test_db();
    let mut e = GameEngine::new(&db);
    e.start_game_raw(deck(1), deck(2), CardId(100), CardId(101), 3, GameMode::Attrition).unwrap();
    let legal = e.get_legal_actions();
    assert_eq!(*legal.last().unwrap(), Action::EndTurn);
    for a in &legal {
        let mut f = e.fork();
        assert!(f.apply_action(*a).is_ok(), "legal action {:?} was refused", a);
    }
    let mask = legal_action_mask(&e.state, &db);
    assert_eq!(mask.len(), 256);
    for a in &legal {
        assert!(mask[a.to_index() as usize]);
    }
    assert_eq!(legal_actions(&e.state, &db), legal);
}

#[test]
fn an_illegal_action_is_refused_and_changes_nothing() {
    let db = test_db();
    let mut e = GameEngine::new(&db);
    e.start_game_raw(deck(1), deck(1), CardId(100), CardId(101), 5, GameMode::Attrition).unwrap();
    let before = snapshot(&e);
    let r = e.apply_action(Action::Attack { attacker: Slot(0), defender: Slot(0) });
    assert_eq!(r, Err("Illegal action: Attack { attacker: Slot(0), defender: Slot(0) }".to_string()));
    assert_eq!(snapshot(&e), before);
    let r = e.apply_action_by_index(100);
    assert_eq!(r, Err("Invalid action index: 100".to_string()));
    assert_eq!(snapshot(&e), before);
}

#[test]
fn playing_a_creature_puts_it_on_the_board() {
    let db = test_db();
    let mut e = GameEngine::new(&db);
    e.start_game_raw(deck(1), deck(1), CardId(100), CardId(101), 9, GameMode::Attrition).unwrap();
    let essence = e.state.players[0].current_essence;
    let hand = e.state.players[0].hand.len();
    e.apply_action(Action::PlayCard { hand_index: 0, slot: Slot(2) }).unwrap();
    assert_eq!(e.state.players[0].creatures.len(), 1);
    assert_eq!(e.state.players[0].creatures[0].slot, Slot(2));
    assert_eq!(e.state.players[0].creatures[0].attack, 2);
    assert_eq!(e.state.players[0].creatures[0].current_health, 3);
    assert_eq!(e.state.players[0].current_essence, essence - 1);
    assert_eq!(e.state.players[0].hand.len(), hand - 1);
    // The slot is taken now.
    assert!(e.apply_action(Action::PlayCard { hand_index: 0, slot: Slot(2) }).is_err());
}

#[test]
fn end_turn_passes_play_to_the_opponent() {
    let db = test_db();
    let mut e = GameEngine::new(&db);
    e.start_game_raw(deck(1), deck(1), CardId(100), CardId(101), 11, GameMode::Attrition).unwrap();
    e.apply_action(Action::EndTurn).unwrap();
    assert_eq!(e.current_player(), PlayerId(1));
    assert_eq!(e.turn_number(), 2);
    e.apply_action(Action::EndTurn).unwrap();
    assert_eq!(e.current_player(), PlayerId(0));
    assert_eq!(e.turn_number(), 3);
}

#[test]
fn a_rushing_creature_hits_the_enemy_player() {
    let db = test_db();
    let mut e = GameEngine::new(&db);
    e.start_game_raw(deck(2), deck(1), CardId(100), CardId(101), 13, GameMode::Attrition).unwrap();
    e.apply_action(Action::PlayCard { hand_index: 0, slot: Slot(0) }).unwrap();
    let life = e.state.players[1].life;
    // Attacking an empty slot hits the player.
    e.apply_action(Action::Attack { attacker: Slot(0), defender: Slot(0) }).unwrap();
    assert_eq!(e.state.players[1].life, life - 3);
    // An attacker is exhausted after attacking.
    assert!(e.apply_action(Action::Attack { attacker: Slot(0), defender: Slot(1) }).is_err());
}

#[test]
fn the_game_ends_at_the_turn_limit() {
    let db = test_db();
    let mut e = GameEngine::new(&db);
    e.start_game_raw(deck(1), deck(1), CardId(100), CardId(101), 17, GameMode::Attrition).unwrap();
    let mut guard = 0;
    while !e.is_game_over() && guard < 100 {
        e.apply_action(Action::EndTurn).unwrap();
        guard += 1;
    }
    assert!(e.is_game_over());
    assert_eq!(e.turn_number(), 31);
    match e.state.result {
        Some(GameResult::Win { reason, .. }) => assert_eq!(reason, WinReason::TurnLimitTiebreaker),
        other => panic!("unexpected result {:?}", other),
    }
    assert!(e.get_legal_actions().is_empty());
    let before = snapshot(&e);
    assert_eq!(e.apply_action(Action::EndTurn), Err("Game is already over".to_string()));
    assert_eq!(snapshot(&e), before);
}

#[test]
fn the_same_seed_deals_the_same_game() {
    let db = test_db();
    let mut a = GameEngine::new(&db);
    let mut b = GameEngine::new(&db);
    let d: Vec<CardId> = (0..20).map(|i| CardId(1 + (i % 2))).collect();
    a.start_game_raw(d.clone(), d.clone(), CardId(100), CardId(101), 99, GameMode::Attrition).unwrap();
    b.start_game_raw(d.clone(), d.clone(), CardId(100), CardId(101), 99, GameMode::Attrition).unwrap();
    assert_eq!(snapshot(&a), snapshot(&b));
}

#[test]
fn the_legal_actions_are_exactly_the_reachable_attacks_and_end_turn() {
    let db = test_db();
    let mut e = GameEngine::new(&db);
    e.start_game_raw(deck(2), deck(1), CardId(100), CardId(101), 21, GameMode::Attrition).unwrap();
    assert_eq!(e.state.players[0].current_essence, 1);
    e.apply_action(Action::PlayCard { hand_index: 0, slot: Slot(0) }).unwrap();
    // No essence is left; the rushing creature at slot 0 reaches slots 0 and 1.
    assert_eq!(
        e.get_legal_actions(),
        vec![
            Action::Attack { attacker: Slot(0), defender: Slot(0) },
            Action::Attack { attacker: Slot(0), defender: Slot(1) },
            Action::EndTurn
        ]
    );
    let mask = legal_action_mask(&e.state, &db);
    assert_eq!(mask.iter().filter(|b| **b).count(), 3);
    assert!(mask[50] && mask[51] && mask[255]);
}

#[test]
fn a_started_game_deals_opening_hands_and_player_one_draws() {
    let db = test_db();
    let mut e = GameEngine::new(&db);
    e.start_game_raw(deck(1), deck(2), CardId(100), CardId(101), 23, GameMode::Attrition).unwrap();
    // Four cards each, then player one draws for the first turn.
    assert_eq!(e.state.players[0].hand.len(), 5);
    assert_eq!(e.state.players[1].hand.len(), 4);
    assert_eq!(e.state.players[0].deck.len(), 15);
    assert_eq!(e.state.players[1].deck.len(), 16);
    assert_eq!(e.state.players[0].action_points, 3);
    assert_eq!(e.state.players[0].max_essence, 1);
    assert_eq!(e.state.players[0].current_essence, 1);
    assert!(e.state.players[1].hand.iter().all(|c| c.card_id == CardId(2)));
}

#[test]
fn playing_a_card_spends_one_action_point() {
    let db = test_db();
    let mut e = GameEngine::new(&db);
    e.start_game_raw(deck(1), deck(1), CardId(100), CardId(101), 25, GameMode::Attrition).unwrap();
    let ap = e.state.players[0].action_points;
    e.apply_action(Action::PlayCard { hand_index: 0, slot: Slot(4) }).unwrap();
    assert_eq!(e.state.players[0].action_points, ap - 1);
    assert_eq!(e.current_player(), PlayerId(0));
}

#[test]
fn a_card_that_cannot_be_paid_still_leaves_the_hand() {
    let db = test_db();
    let mut e = GameEngine::new(&db);
    e.start_game_raw(deck(1), deck(1), CardId(100), CardId(101), 27, GameMode::Attrition).unwrap();
    e.state.players[0].current_essence = 0;
    let hand = e.state.players[0].hand.len();
    let ap = e.state.players[0].action_points;
    assert_eq!(e.execute_play_card(0, Slot(1)), Err("Not enough Essence".to_string()));
    assert_eq!(e.state.players[0].hand.len(), hand - 1);
    assert_eq!(e.state.players[0].action_points, ap);
    assert!(e.state.players[0].creatures.is_empty());
}

#[test]
fn a_fight_without_deaths_leaves_both_creatures_hurt() {
    let db = test_db();
    let mut e = GameEngine::new(&db);
    e.start_game_raw(deck(1), deck(1), CardId(100), CardId(101), 29, GameMode::Attrition).unwrap();
    e.apply_action(Action::PlayCard { hand_index: 0, slot: Slot(0) }).unwrap();
    e.apply_action(Action::EndTurn).unwrap();
    e.apply_action(Action::PlayCard { hand_index: 0, slot: Slot(0) }).unwrap();
    e.apply_action(Action::EndTurn).unwrap();
    let life0 = e.state.players[0].life;
    let life1 = e.state.players[1].life;
    e.apply_action(Action::Attack { attacker: Slot(0), defender: Slot(0) }).unwrap();
    assert_eq!(e.state.players[0].creatures.len(), 1);
    assert_eq!(e.state.players[1].creatures.len(), 1);
    assert_eq!(e.state.players[0].creatures[0].current_health, 1);
    assert_eq!(e.state.players[1].creatures[0].current_health, 1);
    assert!(e.state.players[0].creatures[0].status.is_exhausted());
    assert_eq!(e.state.players[0].life, life0);
    assert_eq!(e.state.players[1].life, life1);
    assert_eq!(e.state.players[0].total_damage_dealt, 2);
}
