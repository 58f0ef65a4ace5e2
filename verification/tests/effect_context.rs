use essence_wars::gamecore::effects::EffectTarget;
use essence_wars::gamecore::engine::effect_context::{ResolvedTargets, TargetResolver};
use essence_wars::gamecore::keywords::Keywords;
use essence_wars::gamecore::state::{Creature, GameState};
use essence_wars::gamecore::types::{CardId, CreatureInstanceId, PlayerId, Slot};

fn create_test_creature(owner: PlayerId, slot: Slot) -> Creature {
    Creature {
        instance_id: CreatureInstanceId(1),
        card_id: CardId(1000),
        owner,
        slot,
        attack: 2,
        current_health: 3,
        max_health: 3,
        base_attack: 2,
        base_health: 3,
        keywords: Keywords::none(),
        status: Default::default(),
        turn_played: 1,
        frenzy_stacks: 0,
        token_abilities: None,
        token_name: None,
    }
}

#[test]
fn test_resolve_single_creature() {
    let mut state = GameState::default();
    state.players[0].creatures.push(create_test_creature(PlayerId::player_one(), Slot(0)));

    let target = EffectTarget::Creature { owner: PlayerId::player_one(), slot: Slot(0) };
    let result = TargetResolver::resolve(&target, None, &state);

    match result {
        ResolvedTargets::Single { owner, slot } => {
            assert_eq!(owner, PlayerId::player_one());
            assert_eq!(slot, Slot(0));
        }
        _ => unreachable!("test helper - expected Single target"),
    }
}

#[test]
fn test_resolve_nonexistent_creature() {
    let state = GameState::default();
    let target = EffectTarget::Creature { owner: PlayerId::player_one(), slot: Slot(0) };
    let result = TargetResolver::resolve(&target, None, &state);

    assert!(matches!(result, ResolvedTargets::NoTargets));
}

#[test]
fn test_resolve_player() {
    let state = GameState::default();
    let target = EffectTarget::Player(PlayerId::player_two());
    let result = TargetResolver::resolve(&target, None, &state);

    match result {
        ResolvedTargets::Player(player) => assert_eq!(player, PlayerId::player_two()),
        _ => unreachable!("test helper - expected Player target"),
    }
}

#[test]
fn test_resolve_all_creatures() {
    let mut state = GameState::default();
    state.players[0].creatures.push(create_test_creature(PlayerId::player_one(), Slot(0)));
    state.players[0].creatures.push(create_test_creature(PlayerId::player_one(), Slot(1)));
    state.players[1].creatures.push(create_test_creature(PlayerId::player_two(), Slot(0)));

    let target = EffectTarget::AllCreatures;
    let result = TargetResolver::resolve(&target, None, &state);

    match result {
        ResolvedTargets::Multiple(creatures) => {
            assert_eq!(creatures.len(), 3);
        }
        _ => unreachable!("test helper - expected Multiple targets"),
    }
}

#[test]
fn test_resolve_ally_creatures() {
    let mut state = GameState::default();
    state.players[0].creatures.push(create_test_creature(PlayerId::player_one(), Slot(0)));
    state.players[0].creatures.push(create_test_creature(PlayerId::player_one(), Slot(1)));
    state.players[1].creatures.push(create_test_creature(PlayerId::player_two(), Slot(0)));

    let target = EffectTarget::AllAllyCreatures(PlayerId::player_one());
    let result = TargetResolver::resolve(&target, None, &state);

    match result {
        ResolvedTargets::Multiple(creatures) => {
            assert_eq!(creatures.len(), 2);
            assert!(creatures.iter().all(|(owner, _)| *owner == PlayerId::player_one()));
        }
        _ => unreachable!("test helper - expected Multiple targets"),
    }
}

#[test]
fn test_resolve_enemy_creatures() {
    let mut state = GameState::default();
    state.players[0].creatures.push(create_test_creature(PlayerId::player_one(), Slot(0)));
    state.players[1].creatures.push(create_test_creature(PlayerId::player_two(), Slot(0)));
    state.players[1].creatures.push(create_test_creature(PlayerId::player_two(), Slot(1)));

    let target = EffectTarget::AllEnemyCreatures(PlayerId::player_one());
    let result = TargetResolver::resolve(&target, None, &state);

    match result {
        ResolvedTargets::Multiple(creatures) => {
            assert_eq!(creatures.len(), 2);
            assert!(creatures.iter().all(|(owner, _)| *owner == PlayerId::player_two()));
        }
        _ => unreachable!("test helper - expected Multiple targets"),
    }
}

#[test]
fn for_each_creature_visits_every_resolved_position_in_order() {
    let mut state = GameState::default();
    state.players[0].creatures.push(create_test_creature(PlayerId::player_one(), Slot(3)));
    state.players[1].creatures.push(create_test_creature(PlayerId::player_two(), Slot(1)));
    let seen = std::cell::RefCell::new(Vec::new());
    TargetResolver::for_each_creature(&EffectTarget::AllCreatures, None, &state, |o, s| seen.borrow_mut().push((o, s)));
    let expected = TargetResolver::collect_creature_targets(&EffectTarget::AllCreatures, None, &state);
    assert_eq!(*seen.borrow(), expected);
    assert_eq!(seen.borrow().len(), 2);
    let none = std::cell::RefCell::new(0);
    TargetResolver::for_each_creature(&EffectTarget::Player(PlayerId::player_one()), None, &state, |_, _| *none.borrow_mut() += 1);
    assert_eq!(*none.borrow(), 0);
}
