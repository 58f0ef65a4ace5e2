//! Setting up a game: commanders, shuffled decks, opening hands, essence.

use vstd::prelude::*;
use crate::gamecore::cards::CardDatabase;
use crate::gamecore::config::{game, player};
use crate::gamecore::state::{
    CardInstance, GameMode, GamePhase, GameState, PlayerState, deck_cards, deck_len, deck_pop, deck_push,
};
use crate::gamecore::text::decimal;
use crate::gamecore::types::{CardId, PlayerId};
use crate::decks::DeckDefinition;

verus! {

/// A hand and deck after drawing the top card (the last one) of the deck;
/// an empty deck draws nothing and a full hand burns the card.
pub open spec fn drawn_top(hand: Seq<CardInstance>, deck: Seq<CardInstance>) -> (Seq<CardInstance>, Seq<CardInstance>) {
    if deck.len() == 0 {
        (hand, deck)
    } else if hand.len() >= player::MAX_HAND_SIZE {
        (hand, deck.drop_last())
    } else {
        (hand.push(deck.last()), deck.drop_last())
    }
}

/// `post` is `pre` with player `p` having drawn a card.
pub open spec fn card_drawn(pre: GameState, post: GameState, p: PlayerId) -> bool {
    let ps = pre.players[p.0 as int];
    let qs = post.players[p.0 as int];
    &&& post == GameState { players: post.players, ..pre }
    &&& post.players[p.spec_opponent().0 as int] == pre.players[p.spec_opponent().0 as int]
    &&& qs == PlayerState { hand: qs.hand, deck: qs.deck, ..ps }
    &&& (qs.hand@, deck_cards(qs.deck)) == drawn_top(ps.hand@, deck_cards(ps.deck))
}

/// Draw a card for a player: nothing happens with an empty deck (no
/// fatigue), and a card drawn into a full hand is discarded.
pub fn draw_card(state: &mut GameState, player: PlayerId)
    requires
        player.valid(),
    ensures
        card_drawn(*old(state), *final(state), player),
{
    let p = player.index();
    if let Some(card) = deck_pop(&mut state.players[p].deck) {
        if state.players[p].hand.len() < player::MAX_HAND_SIZE {
            state.players[p].hand.push(card);
        }
    }
}

/// Why a game could not be set up.
#[derive(Clone, Copy, Debug, PartialEq, Eq, Structural)]
pub enum GameInitError {
    /// A commander is not in the card database (`player` is 1 or 2).
    CommanderNotFound { commander_id: u16, player: usize },
}

impl GameInitError {
    /// The error message.
    pub fn message(&self) -> (r: String)
        ensures
            (match *self {
                GameInitError::CommanderNotFound { commander_id, player } => r@ == "Commander not found: ID "@
                    + crate::gamecore::text::dec(commander_id as nat) + " for player "@ + crate::gamecore::text::dec(player as nat),
            }),
    {
        match self {
            GameInitError::CommanderNotFound { commander_id, player } => {
                let mut s = String::from_str("Commander not found: ID ");
                s.append(decimal(*commander_id as u64).as_str());
                s.append(" for player ");
                s.append(decimal(*player as u64).as_str());
                s
            }
        }
    }
}

/// The next state of the shuffle's generator (wrapping multiply and add).
pub open spec fn lcg_next(x: u64) -> u64 {
    vstd::wrapping::u64_specs::wrapping_add(
        vstd::wrapping::u64_specs::wrapping_mul(x, 6364136223846793005u64), 1442695040888963407u64)
}

/// Fisher-Yates over the first `i` cards: from the last of them down, each
/// place swaps with one drawn (from the generator's next state, its top
/// bits modulo the places left) among those before it and itself.
pub open spec fn shuffle_from(s: Seq<CardInstance>, rng: u64, i: nat) -> Seq<CardInstance>
    decreases i,
{
    if i <= 1 {
        s
    } else {
        let k = (i - 1) as int;
        let r = lcg_next(rng);
        let j = ((r >> 33u64) % ((k + 1) as u64)) as int;
        shuffle_from(s.update(k, s[j]).update(j, s[k]), r, k as nat)
    }
}

/// Shuffle cards deterministically from a seed (Fisher-Yates driven by a
/// linear congruential generator): the result holds the same cards.
pub fn seeded_shuffle(cards: &mut Vec<CardInstance>, seed: u64)
    ensures
        final(cards)@ == shuffle_from(old(cards)@, seed, old(cards)@.len()),
        final(cards)@.len() == old(cards)@.len(),
        final(cards)@.to_multiset() == old(cards)@.to_multiset(),
{
    let n = cards.len();
    let mut rng = seed;
    let mut i = n;
    while i > 1
        invariant
            i <= n,
            cards@.len() == n,
            cards@.to_multiset() == old(cards)@.to_multiset(),
            shuffle_from(cards@, rng, i as nat) == shuffle_from(old(cards)@, seed, n as nat),
        decreases i,
    {
        i = i - 1;
        rng = rng.wrapping_mul(6364136223846793005).wrapping_add(1442695040888963407);
        let j = ((rng >> 33) % (i as u64 + 1)) as usize;
        let ghost before = cards@;
        let a = cards[i];
        let b = cards[j];
        cards.set(i, b);
        cards.set(j, a);
        proof { lemma_swap_multiset(before, i as int, j as int); }
    }
}

/// Swapping two elements keeps the multiset of a sequence.
proof fn lemma_swap_multiset(s: Seq<CardInstance>, i: int, j: int)
    requires
        0 <= i < s.len(),
        0 <= j < s.len(),
    ensures
        s.update(i, s[j]).update(j, s[i]).to_multiset() == s.to_multiset(),
{
    broadcast use vstd::seq_lib::group_to_multiset_ensures;
    broadcast use vstd::multiset::group_multiset_axioms;
    let t = s.update(i, s[j]);
    assert(t.to_multiset() == s.to_multiset().insert(s[j]).remove(s[i]));
    assert(t.update(j, s[i]).to_multiset() == t.to_multiset().insert(s[i]).remove(t[j]));
    if i == j {
        assert(t =~= s);
        assert(t.update(j, s[i]) =~= s);
    } else {
        assert(t[j] == s[j]);
        assert(t.update(j, s[i]).to_multiset() =~= s.to_multiset());
    }
}

/// The deck made from a list of card ids: the first 40 cards, in order.
pub open spec fn deck_of(cards: Seq<CardInstance>) -> Seq<CardInstance> {
    if cards.len() <= game::MAX_DECK_SIZE { cards } else { cards.subrange(0, game::MAX_DECK_SIZE as int) }
}

/// One card instance per card id, in order.
pub open spec fn instances(ids: Seq<CardId>) -> Seq<CardInstance> {
    Seq::new(ids.len(), |k: int| CardInstance { card_id: ids[k] })
}

/// The seed player two's deck is shuffled with, derived from the game's.
pub open spec fn second_seed(seed: u64) -> u64 {
    vstd::wrapping::u64_specs::wrapping_add(vstd::wrapping::u64_specs::wrapping_mul(seed, 6364136223846793005u64), 1u64)
}

/// The deck made from deck list `ids` shuffled from `seed` (40 cards at most).
#[verifier::opaque]
pub open spec fn shuffled_deck(ids: Seq<CardId>, seed: u64) -> Seq<CardInstance> {
    deck_of(shuffle_from(instances(ids), seed, ids.len()))
}

/// A player's hand and deck at the start of a game with deck list `ids`
/// shuffled from `seed` and `n` cards drawn.
#[verifier::opaque]
pub open spec fn opening_deal(ids: Seq<CardId>, seed: u64, n: nat) -> (Seq<CardInstance>, Seq<CardInstance>) {
    drawn_n(Seq::empty(), shuffled_deck(ids, seed), n)
}

/// A player before the first turn: full life, nothing paid or in play,
/// holding the hand and deck `deal`, with essence capacity `max_essence`.
pub open spec fn fresh_player(ps: PlayerState, deal: (Seq<CardInstance>, Seq<CardInstance>), max_essence: u8) -> bool {
    &&& ps.life == player::STARTING_LIFE
    &&& ps.max_essence == max_essence
    &&& ps.current_essence == 0
    &&& ps.action_points == 0
    &&& (ps.hand@, deck_cards(ps.deck)) == deal
    &&& ps.creatures@.len() == 0
    &&& ps.supports@.len() == 0
    &&& ps.total_damage_dealt == 0
    &&& !ps.used_commander_insight
    &&& !ps.commander_passive.spec_has_passive()
}

/// `s` is a game set up from deck lists `ids1`, `ids2`, commanders `c1`,
/// `c2`, `seed` and `mode`, before the first turn starts.
pub open spec fn initialized(s: GameState, ids1: Seq<CardId>, ids2: Seq<CardId>, c1: CardId, c2: CardId, seed: u64,
    mode: GameMode) -> bool
{
    &&& s.wf()
    &&& s.rng_state == seed
    &&& s.game_mode == mode
    &&& s.commander_p1 == Some(c1)
    &&& s.commander_p2 == Some(c2)
    &&& s.current_turn == 0
    &&& s.active_player == PlayerId(0)
    &&& s.phase == GamePhase::Main
    &&& s.result is None
    &&& fresh_player(s.players[0], opening_deal(ids1, seed, player::STARTING_HAND_SIZE as nat),
            (player::STARTING_ESSENCE_P1 - 1) as u8)
    &&& fresh_player(s.players[1], opening_deal(ids2, second_seed(seed),
            (player::STARTING_HAND_SIZE + player::P2_BONUS_CARDS) as nat), (player::STARTING_ESSENCE_P2 - 1) as u8)
}

proof fn lemma_drawn_from_empty(pre: PlayerState, post: PlayerState, ids: Seq<CardId>, seed: u64, n: nat)
    requires
        pre.hand@.len() == 0,
        deck_cards(pre.deck) == shuffled_deck(ids, seed),
        drew_cards(pre, post, n),
    ensures
        (post.hand@, deck_cards(post.deck)) == opening_deal(ids, seed, n),
{
    reveal(opening_deal);
    assert(pre.hand@ =~= Seq::<CardInstance>::empty());
}

/// The seed for player two's shuffle.
fn derive_second_seed(seed: u64) -> (r: u64)
    ensures
        r == second_seed(seed),
{
    seed.wrapping_mul(6364136223846793005).wrapping_add(1)
}

/// Card instances of a list of card ids.
fn instances_of(ids: Vec<CardId>) -> (r: Vec<CardInstance>)
    ensures
        r@ == instances(ids@),
{
    let mut out: Vec<CardInstance> = Vec::new();
    let mut i: usize = 0;
    while i < ids.len()
        invariant
            i <= ids@.len(),
            out@.len() == i,
            forall|k: int| 0 <= k < i ==> (#[trigger] out@[k]).card_id == ids@[k],
        decreases ids@.len() - i,
    {
        out.push(CardInstance::new(ids[i]));
        i = i + 1;
    }
    proof { assert(out@ =~= instances(ids@)); }
    out
}

/// Fill an empty deck with the shuffled cards (at most 40).
fn setup_player_deck(deck: &mut arrayvec::ArrayVec<CardInstance, 40>, cards: Vec<CardId>, seed: u64)
    requires
        deck_cards(*old(deck)).len() == 0,
    ensures
        deck_cards(*final(deck)) == shuffled_deck(cards@, seed),
{
    let ghost n = cards@.len();
    let mut deck_cards_v = instances_of(cards);
    seeded_shuffle(&mut deck_cards_v, seed);
    let ghost sh = deck_cards_v@;
    proof { assert(deck_cards(*deck) =~= sh.subrange(0, 0)); }
    let mut i: usize = 0;
    while i < deck_cards_v.len()
        invariant
            i <= deck_cards_v@.len(),
            deck_cards_v@ == sh,
            deck_cards(*deck) == (if i <= 40 { sh.subrange(0, i as int) } else { sh.subrange(0, 40) }),
        decreases deck_cards_v@.len() - i,
    {
        if deck_len(deck) < game::MAX_DECK_SIZE {
            deck_push(deck, deck_cards_v[i]);
            proof { assert(sh.subrange(0, i as int).push(sh[i as int]) =~= sh.subrange(0, i + 1)); }
        }
        i = i + 1;
    }
    proof { assert(sh.subrange(0, sh.len() as int) =~= sh); reveal(shuffled_deck); }
}

/// The hand and deck after `n` draws from the top of the deck.
pub open spec fn drawn_n(hand: Seq<CardInstance>, deck: Seq<CardInstance>, n: nat) -> (Seq<CardInstance>, Seq<CardInstance>)
    decreases n,
{
    if n == 0 {
        (hand, deck)
    } else {
        let hd = drawn_n(hand, deck, (n - 1) as nat);
        drawn_top(hd.0, hd.1)
    }
}

/// `post` is `pre` after `n` draws, nothing else changed.
pub open spec fn drew_cards(pre: PlayerState, post: PlayerState, n: nat) -> bool {
    &&& post == PlayerState { hand: post.hand, deck: post.deck, ..pre }
    &&& (post.hand@, deck_cards(post.deck)) == drawn_n(pre.hand@, deck_cards(pre.deck), n)
}

/// Each player draws the opening hand, alternating (player one first).
fn draw_starting_hands(state: &mut GameState)
    requires
        old(state).wf(),
    ensures
        final(state).wf(),
        drew_cards(old(state).players[0], final(state).players[0], player::STARTING_HAND_SIZE as nat),
        drew_cards(old(state).players[1], final(state).players[1],
            (player::STARTING_HAND_SIZE + player::P2_BONUS_CARDS) as nat),
        *final(state) == (GameState { players: final(state).players, ..*old(state) }),
        final(state).players[0].creatures == old(state).players[0].creatures,
        final(state).players[1].creatures == old(state).players[1].creatures,
{
    let mut k: usize = 0;
    while k < player::STARTING_HAND_SIZE
        invariant
            *state == (GameState { players: state.players, ..*old(state) }),
            state.wf(),
            state.players[0].creatures == old(state).players[0].creatures,
            state.players[1].creatures == old(state).players[1].creatures,
            k <= player::STARTING_HAND_SIZE,
            drew_cards(old(state).players[0], state.players[0], k as nat),
            drew_cards(old(state).players[1], state.players[1], k as nat),
        decreases player::STARTING_HAND_SIZE - k,
    {
        draw_card(state, PlayerId(0));
        draw_card(state, PlayerId(1));
        k = k + 1;
    }
    let mut b: usize = 0;
    while b < player::P2_BONUS_CARDS
        invariant
            *state == (GameState { players: state.players, ..*old(state) }),
            state.wf(),
            state.players[0].creatures == old(state).players[0].creatures,
            state.players[1].creatures == old(state).players[1].creatures,
            b <= player::P2_BONUS_CARDS,
            drew_cards(old(state).players[0], state.players[0], player::STARTING_HAND_SIZE as nat),
            drew_cards(old(state).players[1], state.players[1], (player::STARTING_HAND_SIZE + b) as nat),
        decreases player::P2_BONUS_CARDS - b,
    {
        draw_card(state, PlayerId(1));
        b = b + 1;
    }
}

/// Set up a game from card ids and commanders: both commanders must be in
/// the database; the state is reset, decks are shuffled (player two's from
/// a seed derived from the first), opening hands are drawn, and starting
/// essence is set so that player two starts one higher after the first turn.
#[verifier::spinoff_prover]
#[verifier::rlimit(40)]
pub fn initialize_game_raw(state: &mut GameState, card_db: &CardDatabase, deck1: Vec<CardId>, deck2: Vec<CardId>,
    commander1: CardId, commander2: CardId, seed: u64, mode: GameMode) -> (r: Result<(), GameInitError>)
    ensures
        card_db.spec_get_commander(commander1) is None ==> r == Err::<(), GameInitError>(
            GameInitError::CommanderNotFound { commander_id: commander1.0, player: 1 }) && *final(state) == *old(state),
        card_db.spec_get_commander(commander1) is Some && card_db.spec_get_commander(commander2) is None ==>
            r == Err::<(), GameInitError>(GameInitError::CommanderNotFound { commander_id: commander2.0, player: 2 })
            && *final(state) == *old(state),
        r is Ok <==> card_db.spec_get_commander(commander1) is Some && card_db.spec_get_commander(commander2) is Some,
        r is Ok ==> initialized(*final(state), deck1@, deck2@, commander1, commander2, seed, mode),
{
    if card_db.get_commander(commander1).is_none() {
        return Err(GameInitError::CommanderNotFound { commander_id: commander1.0, player: 1 });
    }
    if card_db.get_commander(commander2).is_none() {
        return Err(GameInitError::CommanderNotFound { commander_id: commander2.0, player: 2 });
    }
    *state = GameState::new();
    state.rng_state = seed;
    state.game_mode = mode;
    state.commander_p1 = Some(commander1);
    state.commander_p2 = Some(commander2);
    let ghost ids1 = deck1@;
    let ghost ids2 = deck2@;
    setup_player_deck(&mut state.players[0].deck, deck1, seed);
    let seed2 = derive_second_seed(seed);
    setup_player_deck(&mut state.players[1].deck, deck2, seed2);
    let ghost pre = *state;
    draw_starting_hands(state);
    proof {
        lemma_drawn_from_empty(pre.players[0], state.players[0], ids1, seed, player::STARTING_HAND_SIZE as nat);
        lemma_drawn_from_empty(pre.players[1], state.players[1], ids2, seed2,
            (player::STARTING_HAND_SIZE + player::P2_BONUS_CARDS) as nat);
    }
    state.players[0].max_essence = player::STARTING_ESSENCE_P1 - 1;
    state.players[1].max_essence = player::STARTING_ESSENCE_P2 - 1;
    state.current_turn = 0;
    state.active_player = PlayerId(0);
    state.phase = GamePhase::Main;
    proof {
        let n0 = player::STARTING_HAND_SIZE as nat;
        let n1 = (player::STARTING_HAND_SIZE + player::P2_BONUS_CARDS) as nat;
        assert((state.players[0].hand@, deck_cards(state.players[0].deck)) == opening_deal(ids1, seed, n0));
        assert((state.players[1].hand@, deck_cards(state.players[1].deck)) == opening_deal(ids2, second_seed(seed), n1));
        assert(fresh_player(state.players[0], opening_deal(ids1, seed, n0), (player::STARTING_ESSENCE_P1 - 1) as u8));
        assert(fresh_player(state.players[1], opening_deal(ids2, second_seed(seed), n1), (player::STARTING_ESSENCE_P2 - 1) as u8));
    }
    Ok(())
}

/// Set up a game from two deck definitions (their cards and commanders).
pub fn initialize_game(state: &mut GameState, card_db: &CardDatabase, deck1: &DeckDefinition, deck2: &DeckDefinition,
    seed: u64, mode: GameMode) -> (r: Result<(), GameInitError>)
    ensures
        r is Ok <==> card_db.spec_get_commander(CardId(deck1.commander)) is Some
            && card_db.spec_get_commander(CardId(deck2.commander)) is Some,
        r is Err ==> *final(state) == *old(state),
        r is Ok ==> initialized(*final(state), deck1.card_ids(), deck2.card_ids(), CardId(deck1.commander),
            CardId(deck2.commander), seed, mode),
{
    initialize_game_raw(state, card_db, deck1.to_card_ids(), deck2.to_card_ids(), deck1.commander_id(),
        deck2.commander_id(), seed, mode)
}

} // verus!
