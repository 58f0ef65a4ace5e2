use essence_wars::bots::transposition::{get_zobrist_table, zobrist_hash, zobrist_hash_with, Bound, ZOBRIST_TABLE_SIZE};
use essence_wars::gamecore::keywords::Keywords;
use essence_wars::gamecore::state::{Creature, GameState};
use essence_wars::gamecore::types::{CardId, CreatureInstanceId, PlayerId, Slot};

#[test]
fn test_zobrist_table_initialized() {
    let table = get_zobrist_table();
    assert!(table[0] != 0);
    assert!(table[0] != table[1]);
    assert!(table[100] != table[101]);
}

fn creature(owner: PlayerId, slot: Slot, attack: i8, health: i8) -> Creature {
    Creature {
        instance_id: CreatureInstanceId(7),
        card_id: CardId(1003),
        owner,
        slot,
        attack,
        current_health: health,
        max_health: health,
        base_attack: 1,
        base_health: 1,
        keywords: Keywords::none(),
        status: Default::default(),
        turn_played: 1,
        frenzy_stacks: 0,
        token_abilities: None,
        token_name: None,
    }
}

#[test]
fn table_has_every_entry() {
    assert_eq!(get_zobrist_table().len(), ZOBRIST_TABLE_SIZE);
}

#[test]
fn empty_position_hash_under_a_known_table() {
    let table: Vec<u64> = (0..ZOBRIST_TABLE_SIZE as u64).map(|i| 1u64 << (i % 64)).collect();
    let state = GameState::default();
    // Both players: life 30 (clamped index 30), essence 0, action points 0.
    let mut expected = 0u64;
    expected ^= table[5450 + 30];
    expected ^= table[5512];
    expected ^= table[5532];
    expected ^= table[5450 + 31 + 30];
    expected ^= table[5512 + 10];
    expected ^= table[5532 + 4];
    expected ^= table[5540];
    expected ^= table[5542];
    assert_eq!(zobrist_hash_with(&table, &state), expected);
}

#[test]
fn creature_changes_the_hash() {
    let mut state = GameState::default();
    let h0 = zobrist_hash(&state);
    state.players[0].creatures.push(creature(PlayerId::player_one(), Slot(2), 3, 4));
    let h1 = zobrist_hash(&state);
    assert_ne!(h0, h1);
    assert_eq!(h1, zobrist_hash(&state));
}

#[test]
fn creature_terms_under_a_known_table() {
    let table: Vec<u64> = (0..ZOBRIST_TABLE_SIZE as u64).map(|i| i * 3 + 1).collect();
    let mut state = GameState::default();
    let base = zobrist_hash_with(&table, &state);
    state.players[1].creatures.push(creature(PlayerId::player_two(), Slot(1), -60, 120));
    let with = zobrist_hash_with(&table, &state);
    // card 1003 % 500 = 3; attack clamps to 0, health to 99; no keywords.
    let term = table[2500 + 500 + 3]
        ^ table[5000 + 5 + 1].wrapping_add(0)
        ^ table[5100 + 5 + 1].wrapping_add(99)
        ^ table[5200 + 5 + 1].wrapping_add(0);
    assert_eq!(with, base ^ term);
}

#[test]
fn bounds_compare() {
    assert_eq!(Bound::Exact, Bound::Exact);
    assert_ne!(Bound::Lower, Bound::Upper);
}

#[test]
fn sixty_turns_later_the_position_hashes_the_same() {
    let table: Vec<u64> = (0..ZOBRIST_TABLE_SIZE as u64).map(|i| i.wrapping_mul(0x9E37_79B9_7F4A_7C15) ^ 77).collect();
    let mut state = GameState::default();
    state.players[0].creatures.push(creature(PlayerId::player_one(), Slot(3), 2, 2));
    state.current_turn = 7;
    let h = zobrist_hash_with(&table, &state);
    state.current_turn = 67;
    assert_eq!(zobrist_hash_with(&table, &state), h);
    state.current_turn = 8;
    assert_ne!(zobrist_hash_with(&table, &state), h);
}

#[test]
fn handing_over_the_move_flips_the_two_side_keys() {
    let table: Vec<u64> = (0..ZOBRIST_TABLE_SIZE as u64).map(|i| i.wrapping_mul(0x2545_F491_4F6C_DD1D) ^ 5).collect();
    let mut state = GameState::default();
    state.players[1].creatures.push(creature(PlayerId::player_two(), Slot(0), 1, 5));
    let h = zobrist_hash_with(&table, &state);
    state.active_player = PlayerId::player_two();
    assert_eq!(zobrist_hash_with(&table, &state), h ^ table[5540] ^ table[5541]);
}
