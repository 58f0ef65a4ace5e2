//! Zobrist hashing of game positions, for the transposition tables of search.
//!
//! A position's hash XORs together entries of a table of pseudo-random
//! values, one per feature: each creature's card, attack, health, keywords
//! and exhaustion by slot; each support's card and durability by slot; each
//! player's life, essence and action points; the active player; the turn.

use vstd::prelude::*;
use std::collections::hash_map::DefaultHasher;
use std::hash::{Hash, Hasher};
use crate::gamecore::state::{Creature, GameState, PlayerState, Support};

verus! {

/// Number of entries of the Zobrist table.
pub const ZOBRIST_TABLE_SIZE: usize = 6000;

/// The seed every table entry is hashed with.
pub const ZOBRIST_SEED: u64 = 0xDEADBEEF_CAFEBABE;

/// Type of bound stored in a transposition table entry.
#[derive(Clone, Copy, Debug, PartialEq, Eq, Structural)]
pub enum Bound {
    /// Exact score.
    Exact,
    /// Lower bound (beta cutoff).
    Lower,
    /// Upper bound (alpha cutoff).
    Upper,
}

/// `Hash::hash` of a `u64` into a `DefaultHasher` (std): feeds the number to
/// the hasher. What state the hasher is left in is not stated: std documents
/// it for no release in particular.
#[verifier::external_body]
fn hash_u64_into(x: u64, h: &mut DefaultHasher) {
    x.hash(h);
}

/// `Hash::hash` of a `usize` into a `DefaultHasher` (std): feeds the number
/// to the hasher. What state the hasher is left in is not stated.
#[verifier::external_body]
fn hash_usize_into(x: usize, h: &mut DefaultHasher) {
    x.hash(h);
}

/// The table of pseudo-random values: entry `i` is the `DefaultHasher` hash
/// of the seed followed by `i`.
pub fn get_zobrist_table() -> (r: Vec<u64>)
    ensures
        r@.len() == ZOBRIST_TABLE_SIZE,
{
    let mut table: Vec<u64> = Vec::new();
    let mut i: usize = 0;
    while i < ZOBRIST_TABLE_SIZE
        invariant
            i <= ZOBRIST_TABLE_SIZE,
            table@.len() == i,
        decreases ZOBRIST_TABLE_SIZE - i,
    {
        let mut hasher = DefaultHasher::new();
        hash_u64_into(ZOBRIST_SEED, &mut hasher);
        hash_usize_into(i, &mut hasher);
        table.push(hasher.finish());
        i = i + 1;
    }
    table
}

/// `x` held within `lo..=hi`.
pub open spec fn clamp_to(x: int, lo: int, hi: int) -> int {
    if x < lo { lo } else if x > hi { hi } else { x }
}

/// The hash after one creature of player `p` (0 or 1).
pub open spec fn creature_term(t: Seq<u64>, p: int, c: Creature, h: u64) -> u64 {
    let slot = c.slot.0 as int;
    let h1 = h ^ t[p * 2500 + slot * 500 + (c.card_id.0 as int) % 500];
    let h2 = h1 ^ t[5000 + p * 5 + slot].wrapping_add(clamp_to(c.attack + 50, 0, 99) as u64);
    let h3 = h2 ^ t[5100 + p * 5 + slot].wrapping_add(clamp_to(c.current_health as int, 0, 99) as u64);
    let h4 = h3 ^ t[5200 + p * 5 + slot].wrapping_add(c.keywords.0 as u64);
    if c.status.spec_exhausted() { h4 ^ t[5232 + p * 5 + slot] } else { h4 }
}

/// The hash after the creatures of player `p`, in order.
pub open spec fn creatures_term(t: Seq<u64>, p: int, cs: Seq<Creature>, h: u64) -> u64
    decreases cs.len(),
{
    if cs.len() == 0 {
        h
    } else {
        creature_term(t, p, cs.last(), creatures_term(t, p, cs.drop_last(), h))
    }
}

/// The hash after one support of player `p`.
pub open spec fn support_term(t: Seq<u64>, p: int, s: Support, h: u64) -> u64 {
    let slot = s.slot.0 as int;
    let h1 = h ^ t[5242 + p * 100 + slot * 50 + (s.card_id.0 as int) % 50];
    h1 ^ t[5442 + p * 4 + slot].wrapping_add(s.current_durability as u64)
}

/// The hash after the supports of player `p`, in order.
pub open spec fn supports_term(t: Seq<u64>, p: int, ss: Seq<Support>, h: u64) -> u64
    decreases ss.len(),
{
    if ss.len() == 0 {
        h
    } else {
        support_term(t, p, ss.last(), supports_term(t, p, ss.drop_last(), h))
    }
}

/// The hash after everything of player `p`: creatures, supports, life,
/// essence and action points.
pub open spec fn player_term(t: Seq<u64>, p: int, ps: PlayerState, h: u64) -> u64 {
    let h1 = supports_term(t, p, ps.supports@, creatures_term(t, p, ps.creatures@, h));
    let h2 = h1 ^ t[5450 + p * 31 + clamp_to(ps.life as int, 0, 30)];
    let h3 = h2 ^ t[5512 + p * 10 + clamp_to(ps.current_essence as int, 0, 9)];
    h3 ^ t[5532 + p * 4 + clamp_to(ps.action_points as int, 0, 3)]
}

/// The Zobrist hash of a position under table `t`.
pub open spec fn zobrist_of(t: Seq<u64>, s: GameState) -> u64 {
    let h = player_term(t, 1, s.players[1], player_term(t, 0, s.players[0], 0));
    let h2 = h ^ t[5540 + s.active_player.0 as int];
    h2 ^ t[5542 + (s.current_turn as int) % 60]
}

/// Every table index the hash of player `p`'s board uses is inside the table.
pub open spec fn player_indices_ok(p: int, ps: PlayerState) -> bool {
    &&& forall|k: int| 0 <= k < ps.creatures@.len() ==> {
        let slot = (#[trigger] ps.creatures@[k]).slot.0 as int;
        &&& p * 2500 + slot * 500 + 499 < ZOBRIST_TABLE_SIZE
        &&& 5232 + p * 5 + slot < ZOBRIST_TABLE_SIZE
    }
    &&& forall|k: int| 0 <= k < ps.supports@.len() ==> {
        let slot = (#[trigger] ps.supports@[k]).slot.0 as int;
        &&& 5242 + p * 100 + slot * 50 + 49 < ZOBRIST_TABLE_SIZE
        &&& 5442 + p * 4 + slot < ZOBRIST_TABLE_SIZE
    }
}

/// Every table index the hash of a position uses is inside the table.
pub open spec fn zobrist_indices_ok(s: GameState) -> bool {
    player_indices_ok(0, s.players[0]) && player_indices_ok(1, s.players[1])
}

/// A well-formed position only uses indices inside the table.
proof fn lemma_wf_indices_ok(s: GameState)
    requires
        s.wf(),
    ensures
        zobrist_indices_ok(s),
{
}

/// Law: the hash sees the turn number only through its remainder by 60,
/// so 60 turns later the same position hashes the same; and handing the
/// move to the other player changes the hash by the two side keys.
pub proof fn lemma_zobrist_shift(t: Seq<u64>, s: GameState)
    requires
        s.active_player.valid(),
    ensures
        s.current_turn + 60 <= u16::MAX ==> zobrist_of(t, GameState { current_turn: (s.current_turn + 60) as u16, ..s })
            == zobrist_of(t, s),
        zobrist_of(t, GameState { active_player: s.active_player.spec_opponent(), ..s })
            == zobrist_of(t, s) ^ t[5540] ^ t[5541],
{
    let h = player_term(t, 1, s.players[1], player_term(t, 0, s.players[0], 0));
    let x = t[5542 + (s.current_turn as int) % 60];
    let a = t[5540];
    let b = t[5541];
    assert((s.current_turn as int + 60) % 60 == (s.current_turn as int) % 60);
    assert(h ^ b ^ x == h ^ a ^ x ^ a ^ b && h ^ a ^ x == h ^ b ^ x ^ a ^ b) by (bit_vector);
}

/// XOR is associative and commutative, 0 is neutral and each value its own inverse.
proof fn lemma_xor(x: u64, y: u64, z: u64)
    ensures
        (x ^ y) ^ z == x ^ (y ^ z),
        x ^ y == y ^ x,
        x ^ 0 == x,
        x ^ x == 0,
{
    assert((x ^ y) ^ z == x ^ (y ^ z) && x ^ y == y ^ x && x ^ 0u64 == x && x ^ x == 0u64) by (bit_vector);
}

/// One creature's contribution is XORed in, whatever came before it.
proof fn lemma_creature_term_xor(t: Seq<u64>, p: int, c: Creature, h: u64)
    ensures
        creature_term(t, p, c, h) == h ^ creature_term(t, p, c, 0),
{
    let slot = c.slot.0 as int;
    let a = t[p * 2500 + slot * 500 + (c.card_id.0 as int) % 500];
    let b = t[5000 + p * 5 + slot].wrapping_add(clamp_to(c.attack + 50, 0, 99) as u64);
    let cc = t[5100 + p * 5 + slot].wrapping_add(clamp_to(c.current_health as int, 0, 99) as u64);
    let d = t[5200 + p * 5 + slot].wrapping_add(c.keywords.0 as u64);
    let e = t[5232 + p * 5 + slot];
    assert(((((h ^ a) ^ b) ^ cc) ^ d) == h ^ ((((0u64 ^ a) ^ b) ^ cc) ^ d)
        && (((((h ^ a) ^ b) ^ cc) ^ d) ^ e) == h ^ (((((0u64 ^ a) ^ b) ^ cc) ^ d) ^ e)) by (bit_vector);
}

/// The creatures' contributions are XORed in, whatever came before them.
proof fn lemma_creatures_term_xor(t: Seq<u64>, p: int, cs: Seq<Creature>, h: u64)
    ensures
        creatures_term(t, p, cs, h) == h ^ creatures_term(t, p, cs, 0),
    decreases cs.len(),
{
    if cs.len() == 0 {
        lemma_xor(h, 0, 0);
    } else {
        lemma_creatures_term_xor(t, p, cs.drop_last(), h);
        let y = creatures_term(t, p, cs.drop_last(), 0);
        lemma_creature_term_xor(t, p, cs.last(), h ^ y);
        lemma_creature_term_xor(t, p, cs.last(), y);
        lemma_xor(h, y, creature_term(t, p, cs.last(), 0));
    }
}

/// The supports' contributions are XORed in, whatever came before them.
proof fn lemma_supports_term_xor(t: Seq<u64>, p: int, ss: Seq<Support>, h: u64)
    ensures
        supports_term(t, p, ss, h) == h ^ supports_term(t, p, ss, 0),
    decreases ss.len(),
{
    if ss.len() == 0 {
        lemma_xor(h, 0, 0);
    } else {
        lemma_supports_term_xor(t, p, ss.drop_last(), h);
        let y = supports_term(t, p, ss.drop_last(), 0);
        let sp = ss.last();
        let slot = sp.slot.0 as int;
        let a = t[5242 + p * 100 + slot * 50 + (sp.card_id.0 as int) % 50];
        let b = t[5442 + p * 4 + slot].wrapping_add(sp.current_durability as u64);
        assert(((h ^ y) ^ a) ^ b == h ^ ((y ^ a) ^ b)) by (bit_vector);
    }
}

/// A player's contribution is XORed in, whatever came before it.
proof fn lemma_player_term_xor(t: Seq<u64>, p: int, ps: PlayerState, h: u64)
    ensures
        player_term(t, p, ps, h) == h ^ player_term(t, p, ps, 0),
{
    let c0 = creatures_term(t, p, ps.creatures@, 0);
    lemma_creatures_term_xor(t, p, ps.creatures@, h);
    lemma_supports_term_xor(t, p, ps.supports@, h ^ c0);
    lemma_supports_term_xor(t, p, ps.supports@, c0);
    let s0 = supports_term(t, p, ps.supports@, 0);
    let l = t[5450 + p * 31 + clamp_to(ps.life as int, 0, 30)];
    let e = t[5512 + p * 10 + clamp_to(ps.current_essence as int, 0, 9)];
    let a = t[5532 + p * 4 + clamp_to(ps.action_points as int, 0, 3)];
    assert(((((h ^ c0) ^ s0) ^ l) ^ e) ^ a == h ^ ((((c0 ^ s0) ^ l) ^ e) ^ a)) by (bit_vector);
}

/// Replacing one creature changes the creatures' hash by the two creatures' terms.
proof fn lemma_creatures_term_update(t: Seq<u64>, p: int, cs: Seq<Creature>, j: int, c: Creature)
    requires
        0 <= j < cs.len(),
    ensures
        creatures_term(t, p, cs.update(j, c), 0)
            == creatures_term(t, p, cs, 0) ^ (creature_term(t, p, cs[j], 0) ^ creature_term(t, p, c, 0)),
    decreases cs.len(),
{
    let u = cs.update(j, c);
    let x = creature_term(t, p, cs[j], 0) ^ creature_term(t, p, c, 0);
    let y = creatures_term(t, p, cs.drop_last(), 0);
    if j == cs.len() - 1 {
        assert(u.drop_last() =~= cs.drop_last());
        lemma_creature_term_xor(t, p, c, y);
        lemma_creature_term_xor(t, p, cs[j], y);
        let a = creature_term(t, p, cs[j], 0);
        let b = creature_term(t, p, c, 0);
        assert(y ^ b == (y ^ a) ^ (a ^ b)) by (bit_vector);
    } else {
        assert(u.drop_last() =~= cs.drop_last().update(j, c));
        lemma_creatures_term_update(t, p, cs.drop_last(), j, c);
        let y2 = creatures_term(t, p, u.drop_last(), 0);
        lemma_creature_term_xor(t, p, cs.last(), y2);
        lemma_creature_term_xor(t, p, cs.last(), y);
        let l = creature_term(t, p, cs.last(), 0);
        assert(u.last() == cs.last());
        assert((y ^ x) ^ l == (y ^ l) ^ x) by (bit_vector);
    }
}

/// Law: a creature that becomes exhausted, or ready again, changes the
/// position's hash by exactly the table entry of its player and slot for
/// exhaustion (entry 5232 + 5 * player + slot); nothing else about it moves.
pub proof fn lemma_exhaustion_hash(t: Seq<u64>, s: GameState, s2: GameState, p: int, j: int, c: Creature)
    requires
        0 <= p < 2,
        0 <= j < s.players[p].creatures@.len(),
        c == (Creature { status: c.status, ..s.players[p].creatures@[j] }),
        c.status.spec_exhausted() != s.players[p].creatures@[j].status.spec_exhausted(),
        s2 == (GameState { players: s2.players, ..s }),
        s2.players[1 - p] == s.players[1 - p],
        s2.players[p] == (PlayerState { creatures: s2.players[p].creatures, ..s.players[p] }),
        s2.players[p].creatures@ == s.players[p].creatures@.update(j, c),
    ensures
        zobrist_of(t, s2) == zobrist_of(t, s) ^ t[5232 + p * 5 + c.slot.0 as int],
{
    let old_c = s.players[p].creatures@[j];
    let e = t[5232 + p * 5 + c.slot.0 as int];
    // The creature's own term moves by `e`.
    let slot = c.slot.0 as int;
    let a = t[p * 2500 + slot * 500 + (c.card_id.0 as int) % 500];
    let b = t[5000 + p * 5 + slot].wrapping_add(clamp_to(c.attack + 50, 0, 99) as u64);
    let cc = t[5100 + p * 5 + slot].wrapping_add(clamp_to(c.current_health as int, 0, 99) as u64);
    let d = t[5200 + p * 5 + slot].wrapping_add(c.keywords.0 as u64);
    let h4 = (((0u64 ^ a) ^ b) ^ cc) ^ d;
    assert(h4 ^ (h4 ^ e) == e && (h4 ^ e) ^ h4 == e) by (bit_vector);
    assert(creature_term(t, p, old_c, 0) ^ creature_term(t, p, c, 0) == e);
    lemma_creatures_term_update(t, p, s.players[p].creatures@, j, c);
    // So does the player's term.
    let ps = s.players[p];
    let ps2 = s2.players[p];
    let c0 = creatures_term(t, p, ps.creatures@, 0);
    lemma_supports_term_xor(t, p, ps.supports@, c0);
    lemma_supports_term_xor(t, p, ps.supports@, c0 ^ e);
    let s0 = supports_term(t, p, ps.supports@, 0);
    let l = t[5450 + p * 31 + clamp_to(ps.life as int, 0, 30)];
    let es = t[5512 + p * 10 + clamp_to(ps.current_essence as int, 0, 9)];
    let ap = t[5532 + p * 4 + clamp_to(ps.action_points as int, 0, 3)];
    assert(((((c0 ^ e) ^ s0) ^ l) ^ es) ^ ap == (((((c0 ^ s0) ^ l) ^ es) ^ ap) ^ e)) by (bit_vector);
    assert(player_term(t, p, ps2, 0) == player_term(t, p, ps, 0) ^ e);
    // And the whole position's.
    let q0 = player_term(t, 0, s.players[0], 0);
    let q1 = player_term(t, 1, s.players[1], 0);
    lemma_player_term_xor(t, 1, s.players[1], q0);
    lemma_player_term_xor(t, 1, s2.players[1], player_term(t, 0, s2.players[0], 0));
    let side = t[5540 + s.active_player.0 as int];
    let turn = t[5542 + (s.current_turn as int) % 60];
    if p == 0 {
        assert(s2.players[1] == s.players[1]);
        assert((((q0 ^ e) ^ q1) ^ side) ^ turn == ((((q0 ^ q1) ^ side) ^ turn) ^ e)) by (bit_vector);
    } else {
        assert(s2.players[0] == s.players[0]);
        assert(((q0 ^ (q1 ^ e)) ^ side) ^ turn == ((((q0 ^ q1) ^ side) ^ turn) ^ e)) by (bit_vector);
    }
}

fn clamp_i32(x: i32, lo: i32, hi: i32) -> (r: i32)
    requires
        lo <= hi,
    ensures
        r == clamp_to(x as int, lo as int, hi as int),
{
    if x < lo { lo } else if x > hi { hi } else { x }
}

fn hash_player(table: &Vec<u64>, p: usize, ps: &PlayerState, h0: u64) -> (r: u64)
    requires
        table@.len() == ZOBRIST_TABLE_SIZE,
        p < 2,
        player_indices_ok(p as int, *ps),
    ensures
        r == player_term(table@, p as int, *ps, h0),
{
    let t = Ghost(table@);
    let mut hash = h0;
    let mut i: usize = 0;
    while i < ps.creatures.len()
        invariant
            t@ == table@,
            table@.len() == ZOBRIST_TABLE_SIZE,
            p < 2,
            player_indices_ok(p as int, *ps),
            i <= ps.creatures@.len(),
            hash == creatures_term(t@, p as int, ps.creatures@.subrange(0, i as int), h0),
        decreases ps.creatures@.len() - i,
    {
        let c = &ps.creatures[i];
        proof {
            assert(ps.creatures@.subrange(0, i + 1).drop_last() =~= ps.creatures@.subrange(0, i as int));
            assert(ps.creatures@.subrange(0, i + 1).last() == ps.creatures@[i as int]);
        }
        let slot = c.slot.0 as usize;
        let slot_offset = p * 2500 + slot * 500;
        let card_idx = (c.card_id.0 as usize) % 500;
        hash = hash ^ table[slot_offset + card_idx];
        let attack_val = clamp_i32(c.attack as i32 + 50, 0, 99) as u64;
        hash = hash ^ table[5000 + p * 5 + slot].wrapping_add(attack_val);
        let health_val = clamp_i32(c.current_health as i32, 0, 99) as u64;
        hash = hash ^ table[5100 + p * 5 + slot].wrapping_add(health_val);
        hash = hash ^ table[5200 + p * 5 + slot].wrapping_add(c.keywords.0 as u64);
        if c.status.is_exhausted() {
            hash = hash ^ table[5232 + p * 5 + slot];
        }
        i = i + 1;
    }
    proof {
        assert(ps.creatures@.subrange(0, ps.creatures@.len() as int) =~= ps.creatures@);
    }
    let ghost after_creatures = hash;
    let mut j: usize = 0;
    while j < ps.supports.len()
        invariant
            t@ == table@,
            table@.len() == ZOBRIST_TABLE_SIZE,
            p < 2,
            player_indices_ok(p as int, *ps),
            j <= ps.supports@.len(),
            hash == supports_term(t@, p as int, ps.supports@.subrange(0, j as int), after_creatures),
        decreases ps.supports@.len() - j,
    {
        let s = &ps.supports[j];
        proof {
            assert(ps.supports@.subrange(0, j + 1).drop_last() =~= ps.supports@.subrange(0, j as int));
            assert(ps.supports@.subrange(0, j + 1).last() == ps.supports@[j as int]);
        }
        let slot = s.slot.0 as usize;
        let card_idx = (s.card_id.0 as usize) % 50;
        hash = hash ^ table[5242 + p * 100 + slot * 50 + card_idx];
        hash = hash ^ table[5442 + p * 4 + slot].wrapping_add(s.current_durability as u64);
        j = j + 1;
    }
    proof {
        assert(ps.supports@.subrange(0, ps.supports@.len() as int) =~= ps.supports@);
    }
    let life_val = clamp_i32(ps.life as i32, 0, 30) as usize;
    hash = hash ^ table[5450 + p * 31 + life_val];
    let essence_val = if ps.current_essence < 9 { ps.current_essence as usize } else { 9 };
    hash = hash ^ table[5512 + p * 10 + essence_val];
    let ap_val = if ps.action_points < 3 { ps.action_points as usize } else { 3 };
    hash = hash ^ table[5532 + p * 4 + ap_val];
    hash
}

/// The Zobrist hash of a position under the given table.
pub fn zobrist_hash_with(table: &Vec<u64>, state: &GameState) -> (r: u64)
    requires
        table@.len() == ZOBRIST_TABLE_SIZE,
        state.wf(),
    ensures
        r == zobrist_of(table@, *state),
{
    proof { lemma_wf_indices_ok(*state); }
    let h = hash_player(table, 0, &state.players[0], 0);
    let h = hash_player(table, 1, &state.players[1], h);
    let h = h ^ table[5540 + state.active_player.index()];
    h ^ table[5542 + (state.current_turn as usize) % 60]
}

/// The Zobrist hash of a position, under the table of `get_zobrist_table`.
pub fn zobrist_hash(state: &GameState) -> (r: u64)
    requires
        state.wf(),
    ensures
        exists|t: Seq<u64>| t.len() == ZOBRIST_TABLE_SIZE && r == zobrist_of(t, *state),
{
    let table = get_zobrist_table();
    zobrist_hash_with(&table, state)
}

} // verus!
