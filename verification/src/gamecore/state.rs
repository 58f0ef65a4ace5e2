//! The complete game state.

use vstd::prelude::*;
use arrayvec::ArrayVec;
use crate::gamecore::config::{board, game, player};
use crate::gamecore::effects::TokenAbility;
use crate::gamecore::keywords::Keywords;
use crate::gamecore::types::{CardId, CreatureInstanceId, PlayerId, Slot};

verus! {

// ---------------------------------------------------------------------------
// The deck container (an `arrayvec::ArrayVec` of fixed capacity)
// ---------------------------------------------------------------------------

#[verifier::external_type_specification]
#[verifier::external_body]
#[verifier::reject_recursive_types(T)]
pub struct ExArrayVec<T, const CAP: usize>(ArrayVec<T, CAP>);

/// `ArrayVec::clone` (arrayvec): the crate clones element by element; nothing is
/// stated of the result here.
pub assume_specification<T: Clone, const CAP: usize> [<ArrayVec<T, CAP> as Clone>::clone] (a: &ArrayVec<T, CAP>) -> ArrayVec<T, CAP>;

/// The cards of a deck, bottom first (the last one is drawn next).
pub uninterp spec fn deck_cards(d: ArrayVec<CardInstance, 40>) -> Seq<CardInstance>;

/// `ArrayVec::new` (arrayvec): an empty vector.
#[verifier::external_body]
pub(crate) fn deck_new() -> (d: ArrayVec<CardInstance, 40>)
    ensures
        deck_cards(d) == Seq::<CardInstance>::empty(),
{
    ArrayVec::new()
}

/// `ArrayVec::len` (arrayvec): the number of cards held.
#[verifier::external_body]
pub(crate) fn deck_len(d: &ArrayVec<CardInstance, 40>) -> (n: usize)
    ensures
        n == deck_cards(*d).len(),
        n <= 40,
{
    d.len()
}

/// `ArrayVec::push` (arrayvec): appends a card; the crate panics when the
/// vector is full, so a free place is required.
#[verifier::external_body]
pub(crate) fn deck_push(d: &mut ArrayVec<CardInstance, 40>, c: CardInstance)
    requires
        deck_cards(*old(d)).len() < 40,
    ensures
        deck_cards(*final(d)) == deck_cards(*old(d)).push(c),
{
    d.push(c)
}

/// `ArrayVec::pop` (arrayvec): removes and returns the last card, if any.
#[verifier::external_body]
pub(crate) fn deck_pop(d: &mut ArrayVec<CardInstance, 40>) -> (r: Option<CardInstance>)
    ensures
        deck_cards(*old(d)).len() == 0 ==> r is None && deck_cards(*final(d)) == deck_cards(*old(d)),
        deck_cards(*old(d)).len() > 0 ==> r == Some(deck_cards(*old(d)).last())
            && deck_cards(*final(d)) == deck_cards(*old(d)).drop_last(),
{
    d.pop()
}

/// `ArrayVec::remove` (arrayvec): removes the card at `index` and shifts the
/// following ones down; the crate panics on an index out of bounds.
#[verifier::external_body]
pub(crate) fn deck_remove(d: &mut ArrayVec<CardInstance, 40>, index: usize) -> (r: CardInstance)
    requires
        index < deck_cards(*old(d)).len(),
    ensures
        r == deck_cards(*old(d))[index as int],
        deck_cards(*final(d)) == deck_cards(*old(d)).remove(index as int),
{
    d.remove(index)
}

// ---------------------------------------------------------------------------
// Cards, creatures and supports
// ---------------------------------------------------------------------------

/// A card in a hand or deck.
#[derive(Clone, Copy, Debug, PartialEq, Eq, Structural)]
pub struct CardInstance {
    pub card_id: CardId,
}

impl CardInstance {
    /// A card instance of the given card.
    pub fn new(card_id: CardId) -> (r: CardInstance)
        ensures
            r.card_id == card_id,
    {
        CardInstance { card_id }
    }
}

/// Status flags of a creature (bit 0: exhausted, bit 1: silenced).
#[derive(Clone, Copy, Debug, PartialEq, Eq, Structural)]
pub struct CreatureStatus(pub u8);

impl Default for CreatureStatus {
    fn default() -> (r: CreatureStatus)
        ensures
            r.0 == 0,
    {
        CreatureStatus(0)
    }
}

impl CreatureStatus {
    pub const EXHAUSTED: u8 = 1;
    pub const SILENCED: u8 = 2;

    pub open spec fn spec_exhausted(&self) -> bool {
        self.0 & 1 != 0
    }

    pub open spec fn spec_silenced(&self) -> bool {
        self.0 & 2 != 0
    }

    /// Whether the creature has acted (attacked or used an ability) this turn.
    #[verifier::when_used_as_spec(spec_exhausted)]
    pub fn is_exhausted(&self) -> (r: bool)
        ensures
            r == self.spec_exhausted(),
    {
        self.0 & 1 != 0
    }

    /// Whether the creature's abilities and keywords have been removed.
    #[verifier::when_used_as_spec(spec_silenced)]
    pub fn is_silenced(&self) -> (r: bool)
        ensures
            r == self.spec_silenced(),
    {
        self.0 & 2 != 0
    }

    /// Set or clear the exhausted flag.
    pub fn set_exhausted(&mut self, v: bool)
        ensures
            final(self).spec_exhausted() == v,
            final(self).spec_silenced() == old(self).spec_silenced(),
            final(self).0 == (if v { old(self).0 | 1 } else { old(self).0 & 0xfe }),
    {
        let b = self.0;
        if v {
            self.0 = b | 1;
            assert((b | 1) & 1 != 0 && (((b | 1) & 2 != 0) == (b & 2 != 0))) by (bit_vector);
        } else {
            self.0 = b & 0xfe;
            assert((b & 0xfe) & 1 == 0 && (((b & 0xfe) & 2 != 0) == (b & 2 != 0))) by (bit_vector);
        }
    }

    /// Set or clear the silenced flag.
    pub fn set_silenced(&mut self, v: bool)
        ensures
            final(self).spec_silenced() == v,
            final(self).spec_exhausted() == old(self).spec_exhausted(),
            final(self).0 == (if v { old(self).0 | 2 } else { old(self).0 & 0xfd }),
    {
        let b = self.0;
        if v {
            self.0 = b | 2;
            assert((b | 2) & 2 != 0 && (((b | 2) & 1 != 0) == (b & 1 != 0))) by (bit_vector);
        } else {
            self.0 = b & 0xfd;
            assert((b & 0xfd) & 2 == 0 && (((b & 0xfd) & 1 != 0) == (b & 1 != 0))) by (bit_vector);
        }
    }
}

/// A creature on the board.
#[derive(Clone, Debug)]
pub struct Creature {
    pub instance_id: CreatureInstanceId,
    pub card_id: CardId,
    pub owner: PlayerId,
    pub slot: Slot,
    pub attack: i8,
    pub current_health: i8,
    pub max_health: i8,
    pub base_attack: u8,
    pub base_health: u8,
    pub keywords: Keywords,
    pub status: CreatureStatus,
    pub turn_played: u16,
    pub frenzy_stacks: u8,
    /// Activated abilities of a token creature.
    pub token_abilities: Option<Vec<TokenAbility>>,
    /// Display name of a token creature.
    pub token_name: Option<String>,
}

impl Creature {
    /// Whether the creature may attack on the given turn: it must not be
    /// exhausted, and must have been in play since an earlier turn unless it
    /// has Rush.
    pub open spec fn spec_can_attack(&self, current_turn: u16) -> bool {
        !self.status.spec_exhausted() && (self.turn_played < current_turn || self.keywords.spec_has(Keywords::RUSH))
    }

    /// Whether the creature may attack on the given turn.
    #[verifier::when_used_as_spec(spec_can_attack)]
    pub fn can_attack(&self, current_turn: u16) -> (r: bool)
        ensures
            r == self.spec_can_attack(current_turn),
    {
        !self.status.is_exhausted() && (self.turn_played < current_turn || self.keywords.has_rush())
    }

    /// The token abilities of this creature, if it is a token with abilities.
    pub fn token_abilities(&self) -> (r: Option<&Vec<TokenAbility>>)
        ensures
            r matches Some(v) ==> self.token_abilities == Some(*v),
            r is None <==> self.token_abilities is None,
    {
        match &self.token_abilities {
            Some(v) => Some(v),
            None => None,
        }
    }
}

/// A support card on the board.
#[derive(Clone, Copy, Debug, PartialEq, Eq, Structural)]
pub struct Support {
    pub card_id: CardId,
    pub owner: PlayerId,
    pub slot: Slot,
    pub current_durability: u8,
}

/// A commander's passive ability, resolved once at setup.
#[derive(Clone, Copy, Debug, PartialEq, Eq, Structural)]
pub struct ResolvedCommanderPassive {
    pub grant_keyword: u16,
    pub attack_bonus: i8,
    pub health_bonus: i8,
    pub required_keyword: u16,
    pub conditional_grant_keyword: u16,
}

impl Default for ResolvedCommanderPassive {
    fn default() -> (r: ResolvedCommanderPassive)
        ensures
            r.grant_keyword == 0 && r.attack_bonus == 0 && r.health_bonus == 0
                && r.required_keyword == 0 && r.conditional_grant_keyword == 0,
    {
        ResolvedCommanderPassive {
            grant_keyword: 0,
            attack_bonus: 0,
            health_bonus: 0,
            required_keyword: 0,
            conditional_grant_keyword: 0,
        }
    }
}

impl ResolvedCommanderPassive {
    pub open spec fn spec_has_passive(&self) -> bool {
        self.grant_keyword != 0 || self.attack_bonus != 0 || self.health_bonus != 0
            || self.conditional_grant_keyword != 0
    }

    /// Whether the passive does anything at all.
    #[verifier::when_used_as_spec(spec_has_passive)]
    pub fn has_passive(&self) -> (r: bool)
        ensures
            r == self.spec_has_passive(),
    {
        self.grant_keyword != 0 || self.attack_bonus != 0 || self.health_bonus != 0
            || self.conditional_grant_keyword != 0
    }
}

// ---------------------------------------------------------------------------
// Looking creatures up by slot
// ---------------------------------------------------------------------------

/// Index of the first creature at `slot` among positions `i..`, or -1.
pub open spec fn slot_index_from(cs: Seq<Creature>, slot: Slot, i: int) -> int
    decreases cs.len() - i,
{
    if i < 0 || i >= cs.len() {
        -1
    } else if cs[i].slot == slot {
        i
    } else {
        slot_index_from(cs, slot, i + 1)
    }
}

/// Index of the first creature at `slot`, or -1 when the slot is empty.
pub open spec fn slot_index(cs: Seq<Creature>, slot: Slot) -> int {
    slot_index_from(cs, slot, 0)
}

/// A board's creatures stand on distinct slots of the five.
pub open spec fn board_ok(cs: Seq<Creature>) -> bool {
    &&& forall|j: int| 0 <= j < cs.len() ==> (#[trigger] cs[j]).slot.0 < 5
    &&& forall|j: int, k: int| 0 <= j < k < cs.len() ==> (#[trigger] cs[j]).slot != (#[trigger] cs[k]).slot
}

/// A player's supports stand on distinct slots of the two.
pub open spec fn supports_ok(ss: Seq<Support>) -> bool {
    &&& forall|j: int| 0 <= j < ss.len() ==> (#[trigger] ss[j]).slot.0 < 2
    &&& forall|j: int, k: int| 0 <= j < k < ss.len() ==> (#[trigger] ss[j]).slot != (#[trigger] ss[k]).slot
}

/// Replacing a creature by one on the same slot keeps a board well formed.
pub proof fn lemma_board_ok_update(cs: Seq<Creature>, k: int, c: Creature)
    requires
        board_ok(cs),
        0 <= k < cs.len(),
        c.slot == cs[k].slot,
    ensures
        board_ok(cs.update(k, c)),
{
    let t = cs.update(k, c);
    assert forall|j: int, l: int| 0 <= j < l < t.len() implies (#[trigger] t[j]).slot != (#[trigger] t[l]).slot by {
        assert(cs[j].slot != cs[l].slot);
    }
    assert forall|j: int| 0 <= j < t.len() implies (#[trigger] t[j]).slot.0 < 5 by {
        assert(cs[j].slot.0 < 5);
    }
}

/// A board whose creatures keep their slots (and number) stays well formed.
pub proof fn lemma_board_ok_same_slots(pre: Seq<Creature>, post: Seq<Creature>)
    requires
        board_ok(pre),
        post.len() == pre.len(),
        forall|j: int| 0 <= j < post.len() ==> (#[trigger] post[j]).slot == pre[j].slot,
    ensures
        board_ok(post),
{
    assert forall|j: int, l: int| 0 <= j < l < post.len() implies (#[trigger] post[j]).slot != (#[trigger] post[l]).slot by {
        assert(pre[j].slot != pre[l].slot);
    }
    assert forall|j: int| 0 <= j < post.len() implies (#[trigger] post[j]).slot.0 < 5 by {
        assert(pre[j].slot.0 < 5);
    }
}

/// Removing the creatures at a slot keeps a board well formed.
pub proof fn lemma_board_ok_without_slot(cs: Seq<Creature>, slot: Slot)
    requires
        board_ok(cs),
    ensures
        board_ok(without_slot(cs, slot)),
    decreases cs.len(),
{
    if cs.len() > 0 {
        let init = cs.drop_last();
        assert(board_ok(init)) by {
            assert forall|j: int, l: int| 0 <= j < l < init.len() implies (#[trigger] init[j]).slot != (#[trigger] init[l]).slot by {
                assert(cs[j].slot != cs[l].slot);
            }
            assert forall|j: int| 0 <= j < init.len() implies (#[trigger] init[j]).slot.0 < 5 by {
                assert(cs[j].slot.0 < 5);
            }
        }
        lemma_board_ok_without_slot(init, slot);
        lemma_without_slot(init, slot);
        let rest = without_slot(init, slot);
        if cs.last().slot != slot {
            let t = rest.push(cs.last());
            assert forall|j: int, l: int| 0 <= j < l < t.len() implies (#[trigger] t[j]).slot != (#[trigger] t[l]).slot by {
                if l == rest.len() {
                    let k = choose|k: int| 0 <= k < init.len() && init[k] == rest[j];
                    assert(cs[k] == init[k]);
                    assert(cs[k].slot != cs[cs.len() - 1].slot);
                } else {
                    assert(t[j] == rest[j] && t[l] == rest[l]);
                }
            }
            assert forall|j: int| 0 <= j < t.len() implies (#[trigger] t[j]).slot.0 < 5 by {
                if j < rest.len() {
                    let k = choose|k: int| 0 <= k < init.len() && init[k] == rest[j];
                    assert(cs[k] == init[k]);
                } else {
                    assert(cs[cs.len() - 1].slot.0 < 5);
                }
            }
        }
    }
}

/// Adding a creature on a free slot of the five keeps a board well formed.
pub proof fn lemma_board_ok_push(cs: Seq<Creature>, c: Creature)
    requires
        board_ok(cs),
        c.slot.0 < 5,
        !occupied(cs, c.slot),
    ensures
        board_ok(cs.push(c)),
{
    let t = cs.push(c);
    assert forall|j: int, l: int| 0 <= j < l < t.len() implies (#[trigger] t[j]).slot != (#[trigger] t[l]).slot by {
        if l == cs.len() {
            assert(t[j] == cs[j]);
        } else {
            assert(t[j] == cs[j] && t[l] == cs[l]);
        }
    }
    assert forall|j: int| 0 <= j < t.len() implies (#[trigger] t[j]).slot.0 < 5 by {
        if j < cs.len() {
            assert(t[j] == cs[j]);
        }
    }
}

/// Whether some creature occupies `slot`.
pub open spec fn occupied(cs: Seq<Creature>, slot: Slot) -> bool {
    exists|j: int| 0 <= j < cs.len() && (#[trigger] cs[j]).slot == slot
}

/// The slot index found from position `i` is the first match from there.
pub proof fn lemma_slot_index_from(cs: Seq<Creature>, slot: Slot, i: int)
    requires
        0 <= i <= cs.len(),
    ensures
        slot_index_from(cs, slot, i) == -1 ==> forall|j: int| i <= j < cs.len() ==> (#[trigger] cs[j]).slot != slot,
        slot_index_from(cs, slot, i) != -1 ==> {
            let k = slot_index_from(cs, slot, i);
            &&& i <= k < cs.len()
            &&& cs[k].slot == slot
            &&& forall|j: int| i <= j < k ==> (#[trigger] cs[j]).slot != slot
        },
    decreases cs.len() - i,
{
    if i < cs.len() {
        lemma_slot_index_from(cs, slot, i + 1);
    }
}

/// Facts about the first index of a slot.
pub proof fn lemma_slot_index(cs: Seq<Creature>, slot: Slot)
    ensures
        slot_index(cs, slot) == -1 <==> !occupied(cs, slot),
        slot_index(cs, slot) != -1 ==> {
            let k = slot_index(cs, slot);
            &&& 0 <= k < cs.len()
            &&& cs[k].slot == slot
            &&& forall|j: int| 0 <= j < k ==> (#[trigger] cs[j]).slot != slot
        },
{
    lemma_slot_index_from(cs, slot, 0);
}

/// Index of the first creature in `cs` at `slot`.
pub fn find_creature_index(cs: &Vec<Creature>, slot: Slot) -> (r: Option<usize>)
    ensures
        r is None <==> slot_index(cs@, slot) == -1,
        r matches Some(i) ==> i == slot_index(cs@, slot) && i < cs@.len() && cs@[i as int].slot == slot,
{
    let mut i: usize = 0;
    while i < cs.len()
        invariant
            i <= cs@.len(),
            slot_index_from(cs@, slot, 0) == slot_index_from(cs@, slot, i as int),
        decreases cs@.len() - i,
    {
        if cs[i].slot == slot {
            return Some(i);
        }
        i = i + 1;
    }
    None
}

/// The creatures of `cs` not at `slot`, in order.
pub open spec fn without_slot(cs: Seq<Creature>, slot: Slot) -> Seq<Creature>
    decreases cs.len(),
{
    if cs.len() == 0 {
        cs
    } else {
        let rest = without_slot(cs.drop_last(), slot);
        if cs.last().slot != slot {
            rest.push(cs.last())
        } else {
            rest
        }
    }
}

/// Every creature left after removing a slot comes from the original list
/// and is not at that slot; every other creature is kept.
pub proof fn lemma_without_slot(cs: Seq<Creature>, slot: Slot)
    ensures
        without_slot(cs, slot).len() <= cs.len(),
        forall|j: int| 0 <= j < without_slot(cs, slot).len() ==>
            (#[trigger] without_slot(cs, slot)[j]).slot != slot && cs.contains(without_slot(cs, slot)[j]),
        forall|j: int| 0 <= j < cs.len() && (#[trigger] cs[j]).slot != slot ==> without_slot(cs, slot).contains(cs[j]),
        !occupied(cs, slot) ==> without_slot(cs, slot) == cs,
    decreases cs.len(),
{
    if cs.len() > 0 {
        let init = cs.drop_last();
        lemma_without_slot(init, slot);
        let rest = without_slot(init, slot);
        assert forall|j: int| 0 <= j < without_slot(cs, slot).len() implies
            (#[trigger] without_slot(cs, slot)[j]).slot != slot && cs.contains(without_slot(cs, slot)[j]) by {
            if j < rest.len() {
                let k = choose|k: int| 0 <= k < init.len() && init[k] == rest[j];
                assert(cs[k] == init[k]);
            } else {
                assert(cs[cs.len() - 1] == cs.last());
            }
        }
        assert forall|j: int| 0 <= j < cs.len() && (#[trigger] cs[j]).slot != slot implies
            without_slot(cs, slot).contains(cs[j]) by {
            if j < cs.len() - 1 {
                assert(init[j] == cs[j]);
                let k = choose|k: int| 0 <= k < rest.len() && rest[k] == init[j];
                if cs.last().slot != slot {
                    assert(without_slot(cs, slot)[k] == rest[k]);
                }
            } else {
                assert(without_slot(cs, slot)[rest.len() as int] == cs.last());
            }
        }
        if !occupied(cs, slot) {
            assert forall|j: int| 0 <= j < init.len() implies (#[trigger] init[j]).slot != slot by {
                assert(cs[j] == init[j]);
            }
            assert(cs[cs.len() - 1].slot != slot);
            assert(cs =~= init.push(cs.last()));
        }
    }
}

/// Remove the creatures at `slot`, keeping the others in order.
pub fn remove_creatures_at(cs: &mut Vec<Creature>, slot: Slot)
    ensures
        final(cs)@ == without_slot(old(cs)@, slot),
{
    let ghost orig = cs@;
    let ghost mut k: int = 0;
    let mut i: usize = 0;
    while i < cs.len()
        invariant
            0 <= k <= orig.len(),
            cs@ == without_slot(orig.subrange(0, k), slot) + orig.subrange(k, orig.len() as int),
            i == without_slot(orig.subrange(0, k), slot).len(),
            i <= cs@.len(),
            (i == cs@.len()) ==> k == orig.len(),
        decreases orig.len() - k,
    {
        let ghost kept = without_slot(orig.subrange(0, k), slot);
        proof {
            assert(orig.subrange(0, k + 1).drop_last() =~= orig.subrange(0, k));
            assert(orig.subrange(0, k + 1).last() == orig[k]);
            assert(cs@[i as int] == orig[k]);
        }
        if cs[i].slot == slot {
            let _removed = cs.remove(i);
            proof {
                assert(cs@ =~= kept + orig.subrange(k + 1, orig.len() as int));
                k = k + 1;
            }
        } else {
            proof {
                assert(without_slot(orig.subrange(0, k + 1), slot) =~= kept.push(orig[k]));
                assert(cs@ =~= kept.push(orig[k]) + orig.subrange(k + 1, orig.len() as int));
                k = k + 1;
            }
            i = i + 1;
        }
    }
    proof {
        assert(orig.subrange(k, orig.len() as int) =~= Seq::<Creature>::empty());
        assert(orig.subrange(0, k) =~= orig);
        assert(cs@ =~= without_slot(orig, slot));
    }
}

// ---------------------------------------------------------------------------
// Players and the game
// ---------------------------------------------------------------------------

/// Everything one player owns.
#[derive(Clone, Debug)]
pub struct PlayerState {
    pub life: i16,
    pub max_essence: u8,
    pub current_essence: u8,
    pub action_points: u8,
    pub hand: Vec<CardInstance>,
    pub deck: ArrayVec<CardInstance, 40>,
    pub creatures: Vec<Creature>,
    pub supports: Vec<Support>,
    /// Damage dealt to creatures and players (essence extracted).
    pub total_damage_dealt: u16,
    pub used_commander_insight: bool,
    pub commander_passive: ResolvedCommanderPassive,
}

/// Index of the first support at `slot` among positions `i..`, or -1.
pub open spec fn support_index_from(ss: Seq<Support>, slot: Slot, i: int) -> int
    decreases ss.len() - i,
{
    if i < 0 || i >= ss.len() {
        -1
    } else if ss[i].slot == slot {
        i
    } else {
        support_index_from(ss, slot, i + 1)
    }
}

/// The index found is -1 or a position at or after `i` holding the slot.
pub proof fn lemma_support_index_range(ss: Seq<Support>, slot: Slot, i: int)
    requires
        0 <= i,
    ensures
        support_index_from(ss, slot, i) == -1 || (i <= support_index_from(ss, slot, i) < ss.len()
            && ss[support_index_from(ss, slot, i)].slot == slot),
    decreases ss.len() - i,
{
    if i < ss.len() && ss[i].slot != slot {
        lemma_support_index_range(ss, slot, i + 1);
    }
}

/// A slot that no support at or after `i` holds is found at none of them.
pub proof fn lemma_support_absent(ss: Seq<Support>, slot: Slot, i: int)
    requires
        0 <= i,
        support_index_from(ss, slot, i) == -1,
    ensures
        forall|j: int| i <= j < ss.len() ==> (#[trigger] ss[j]).slot != slot,
    decreases ss.len() - i,
{
    if i < ss.len() {
        lemma_support_absent(ss, slot, i + 1);
    }
}

/// Placing a support on a free slot of the two keeps the supports apart.
pub proof fn lemma_supports_ok_push(ss: Seq<Support>, s: Support)
    requires
        supports_ok(ss),
        s.slot.0 < 2,
        support_index_from(ss, s.slot, 0) == -1,
    ensures
        supports_ok(ss.push(s)),
{
    lemma_support_absent(ss, s.slot, 0);
    let t = ss.push(s);
    assert forall|j: int, k: int| 0 <= j < k < t.len() implies (#[trigger] t[j]).slot != (#[trigger] t[k]).slot by {
        if k == ss.len() {
            assert(ss[j].slot != s.slot);
        } else {
            assert(t[j] == ss[j] && t[k] == ss[k]);
        }
    }
}

/// The first free creature slot at or after `i`, if any.
pub open spec fn first_free_slot_from(cs: Seq<Creature>, i: nat) -> Option<Slot>
    decreases 5 - i,
{
    if i >= 5 {
        None
    } else if !occupied(cs, Slot(i as u8)) {
        Some(Slot(i as u8))
    } else {
        first_free_slot_from(cs, i + 1)
    }
}

/// The first free slot found is one of the five, and free.
pub proof fn lemma_first_free_slot(cs: Seq<Creature>, i: nat)
    ensures
        first_free_slot_from(cs, i) matches Some(s) ==> s.0 < 5 && !occupied(cs, s),
    decreases 5 - i,
{
    if i < 5 && occupied(cs, Slot(i as u8)) {
        lemma_first_free_slot(cs, i + 1);
    }
}

impl PlayerState {
    /// A player at the start of a game: full life, nothing in play.
    pub fn new() -> (r: PlayerState)
        ensures
            r.life == player::STARTING_LIFE,
            r.max_essence == 0,
            r.current_essence == 0,
            r.action_points == 0,
            r.hand@ == Seq::<CardInstance>::empty(),
            deck_cards(r.deck) == Seq::<CardInstance>::empty(),
            r.creatures@ == Seq::<Creature>::empty(),
            r.supports@ == Seq::<Support>::empty(),
            r.total_damage_dealt == 0,
            !r.used_commander_insight,
            !r.commander_passive.spec_has_passive(),
    {
        PlayerState {
            life: player::STARTING_LIFE,
            max_essence: 0,
            current_essence: 0,
            action_points: 0,
            hand: Vec::new(),
            deck: deck_new(),
            creatures: Vec::new(),
            supports: Vec::new(),
            total_damage_dealt: 0,
            used_commander_insight: false,
            commander_passive: ResolvedCommanderPassive::default(),
        }
    }

    /// The creature at `slot`, if any.
    pub fn get_creature(&self, slot: Slot) -> (r: Option<&Creature>)
        ensures
            r is None <==> slot_index(self.creatures@, slot) == -1,
            r matches Some(c) ==> *c == self.creatures@[slot_index(self.creatures@, slot)],
    {
        match find_creature_index(&self.creatures, slot) {
            Some(i) => Some(&self.creatures[i]),
            None => None,
        }
    }

    /// Whether a creature occupies `slot`.
    pub fn has_creature(&self, slot: Slot) -> (r: bool)
        ensures
            r == occupied(self.creatures@, slot),
    {
        proof { lemma_slot_index(self.creatures@, slot); }
        find_creature_index(&self.creatures, slot).is_some()
    }

    /// The support at `slot`, if any.
    pub fn get_support(&self, slot: Slot) -> (r: Option<&Support>)
        ensures
            r is None <==> support_index_from(self.supports@, slot, 0) == -1,
            r is Some ==> 0 <= support_index_from(self.supports@, slot, 0) < self.supports@.len(),
            r matches Some(s) ==> *s == self.supports@[support_index_from(self.supports@, slot, 0)],
    {
        proof { lemma_support_index_range(self.supports@, slot, 0); }
        let mut i: usize = 0;
        while i < self.supports.len()
            invariant
                i <= self.supports@.len(),
                support_index_from(self.supports@, slot, 0) == support_index_from(self.supports@, slot, i as int),
            decreases self.supports@.len() - i,
        {
            if self.supports[i].slot == slot {
                return Some(&self.supports[i]);
            }
            i = i + 1;
        }
        None
    }

    /// The lowest-numbered empty creature slot, if any.
    pub fn find_empty_creature_slot(&self) -> (r: Option<Slot>)
        ensures
            r == first_free_slot_from(self.creatures@, 0),
    {
        let mut i: u8 = 0;
        while i < 5
            invariant
                i <= 5,
                first_free_slot_from(self.creatures@, 0) == first_free_slot_from(self.creatures@, i as nat),
            decreases 5 - i,
        {
            if !self.has_creature(Slot(i)) {
                return Some(Slot(i));
            }
            i = i + 1;
        }
        None
    }

    /// Whether the hand holds the maximum number of cards.
    pub fn is_hand_full(&self) -> (r: bool)
        ensures
            r == (self.hand@.len() >= player::MAX_HAND_SIZE),
    {
        self.hand.len() >= player::MAX_HAND_SIZE
    }
}

/// Phase of the game.
#[derive(Clone, Copy, Debug, PartialEq, Eq, Structural)]
pub enum GamePhase {
    Setup,
    Main,
    Ended,
}

/// Why a game was won.
#[derive(Clone, Copy, Debug, PartialEq, Eq, Structural)]
pub enum WinReason {
    LifeReachedZero,
    TurnLimitTiebreaker,
    EssenceExtractionReached,
}

/// How a finished game ended.
#[derive(Clone, Copy, Debug, PartialEq, Eq, Structural)]
pub enum GameResult {
    Win { winner: PlayerId, reason: WinReason },
    Draw,
}

/// Victory rules in force.
#[derive(Clone, Copy, Debug, PartialEq, Eq, Structural)]
pub enum GameMode {
    /// Win by reducing the opponent's life to zero; life breaks ties.
    Attrition,
    /// Also win by extracting enough essence; essence extracted breaks ties.
    EssenceWar,
}

impl Default for GameMode {
    fn default() -> (r: GameMode)
        ensures
            r == GameMode::Attrition,
    {
        GameMode::Attrition
    }
}

/// The complete state of a game.
#[derive(Clone, Debug)]
pub struct GameState {
    pub players: [PlayerState; 2],
    pub active_player: PlayerId,
    pub current_turn: u16,
    pub phase: GamePhase,
    pub result: Option<GameResult>,
    pub rng_state: u64,
    pub game_mode: GameMode,
    pub commander_p1: Option<CardId>,
    pub commander_p2: Option<CardId>,
    pub next_instance_id: u32,
}

impl Default for GameState {
    fn default() -> (r: GameState)
        ensures
            r.wf(),
            r.active_player == PlayerId(0),
            r.result is None,
    {
        GameState::new()
    }
}

impl GameState {
    /// The active player names a seat, each board holds creatures on
    /// distinct slots of the five and supports on distinct slots of the two,
    /// and no hand holds more than the hand limit.
    pub open spec fn wf(&self) -> bool {
        &&& self.active_player.valid()
        &&& board_ok(self.players[0].creatures@)
        &&& board_ok(self.players[1].creatures@)
        &&& supports_ok(self.players[0].supports@)
        &&& supports_ok(self.players[1].supports@)
        &&& self.players[0].hand@.len() <= player::MAX_HAND_SIZE
        &&& self.players[1].hand@.len() <= player::MAX_HAND_SIZE
    }

    /// The game has a result.
    pub open spec fn spec_is_terminal(&self) -> bool {
        self.result is Some
    }

    /// An empty game in the setup phase.
    pub fn new() -> (r: GameState)
        ensures
            r.wf(),
            r.active_player == PlayerId(0),
            r.current_turn == 0,
            r.phase == GamePhase::Setup,
            r.result is None,
            r.game_mode == GameMode::Attrition,
            r.commander_p1 is None,
            r.commander_p2 is None,
            r.players[0].life == player::STARTING_LIFE,
            r.players[1].life == player::STARTING_LIFE,
            r.players[0].creatures@.len() == 0,
            r.players[1].creatures@.len() == 0,
            r.players[0].hand@.len() == 0,
            r.players[1].hand@.len() == 0,
            deck_cards(r.players[0].deck).len() == 0,
            deck_cards(r.players[1].deck).len() == 0,
            forall|i: int| 0 <= i < 2 ==> {
                let ps = #[trigger] r.players[i];
                &&& ps.max_essence == 0
                &&& ps.current_essence == 0
                &&& ps.action_points == 0
                &&& ps.supports@.len() == 0
                &&& ps.total_damage_dealt == 0
                &&& !ps.used_commander_insight
                &&& !ps.commander_passive.spec_has_passive()
            },
    {
        GameState {
            players: [PlayerState::new(), PlayerState::new()],
            active_player: PlayerId(0),
            current_turn: 0,
            phase: GamePhase::Setup,
            result: None,
            rng_state: 0,
            game_mode: GameMode::Attrition,
            commander_p1: None,
            commander_p2: None,
            next_instance_id: 0,
        }
    }

    /// Whether the game is over.
    #[verifier::when_used_as_spec(spec_is_terminal)]
    pub fn is_terminal(&self) -> (r: bool)
        ensures
            r == self.spec_is_terminal(),
    {
        self.result.is_some()
    }

    /// The active player's state.
    pub fn active_player_state(&self) -> (r: &PlayerState)
        requires
            self.wf(),
        ensures
            *r == self.players[self.active_player.0 as int],
    {
        &self.players[self.active_player.index()]
    }

    /// The non-active player's state.
    pub fn opponent_state(&self) -> (r: &PlayerState)
        requires
            self.wf(),
        ensures
            *r == self.players[self.active_player.spec_opponent().0 as int],
    {
        &self.players[self.active_player.opponent().index()]
    }

    /// The commander of a player.
    pub open spec fn spec_commander(&self, player: PlayerId) -> Option<CardId> {
        if player.0 == 0 { self.commander_p1 } else { self.commander_p2 }
    }

    /// The commander of a player, if set.
    pub fn get_commander(&self, player: PlayerId) -> (r: Option<CardId>)
        ensures
            r == self.spec_commander(player),
    {
        if player.0 == 0 { self.commander_p1 } else { self.commander_p2 }
    }

    /// A fresh creature instance id.
    pub fn next_creature_instance_id(&mut self) -> (r: CreatureInstanceId)
        ensures
            r.0 == old(self).next_instance_id,
            final(self).next_instance_id == (if old(self).next_instance_id == u32::MAX { 0 } else { old(self).next_instance_id + 1 }),
            final(self).players == old(self).players,
            final(self).active_player == old(self).active_player,
            final(self).current_turn == old(self).current_turn,
            final(self).phase == old(self).phase,
            final(self).result == old(self).result,
            final(self).game_mode == old(self).game_mode,
            final(self).commander_p1 == old(self).commander_p1,
            final(self).commander_p2 == old(self).commander_p2,
            final(self).rng_state == old(self).rng_state,
    {
        let id = self.next_instance_id;
        self.next_instance_id = if id == u32::MAX { 0 } else { id + 1 };
        CreatureInstanceId(id)
    }
}

} // verus!
