//! Deck definitions: a commander and a list of cards.

use vstd::prelude::*;
use crate::gamecore::cards::CardDatabase;
use crate::gamecore::text::{ascii_lower, dec, decimal, eq_ignore_ascii_case, str_eq};
use crate::gamecore::types::CardId;

pub use crate::gamecore::cards::Faction;

verus! {

/// A deck: its id, name, description, commander, cards, tags and playstyle.
#[derive(Clone, Debug)]
pub struct DeckDefinition {
    pub id: String,
    pub name: String,
    pub description: String,
    pub commander: u16,
    pub cards: Vec<u16>,
    pub tags: Vec<String>,
    pub playstyle: String,
}

impl DeckDefinition {
    /// The deck's cards as card ids, in order.
    pub open spec fn card_ids(&self) -> Seq<CardId> {
        Seq::new(self.cards@.len(), |k: int| CardId(self.cards@[k]))
    }

    /// The deck's cards as card ids, in order.
    pub fn to_card_ids(&self) -> (r: Vec<CardId>)
        ensures
            r@ == self.card_ids(),
    {
        let mut out: Vec<CardId> = Vec::new();
        let mut i: usize = 0;
        while i < self.cards.len()
            invariant
                i <= self.cards@.len(),
                out@.len() == i,
                forall|k: int| 0 <= k < i ==> (#[trigger] out@[k]).0 == self.cards@[k],
            decreases self.cards@.len() - i,
        {
            out.push(CardId(self.cards[i]));
            i = i + 1;
        }
        proof { assert(out@ =~= self.card_ids()); }
        out
    }

    /// The deck's faction: that of its first tag naming a faction.
    pub fn faction(&self) -> (r: Option<Faction>)
        ensures
            r == tags_faction(self.tags@.map_values(|t: String| t@)),
    {
        let ghost tv = self.tags@.map_values(|t: String| t@);
        proof { assert(tv.subrange(0, tv.len() as int) =~= tv); }
        let mut i: usize = 0;
        while i < self.tags.len()
            invariant
                i <= self.tags@.len(),
                tv == self.tags@.map_values(|t: String| t@),
                tags_faction(tv) == tags_faction(tv.subrange(i as int, tv.len() as int)),
            decreases self.tags@.len() - i,
        {
            let ghost rest = tv.subrange(i as int, tv.len() as int);
            proof {
                assert(rest[0] == self.tags@[i as int]@);
                assert(rest.drop_first() =~= tv.subrange(i + 1, tv.len() as int));
            }
            let f = tag_faction(self.tags[i].as_str());
            if f.is_some() {
                return f;
            }
            i = i + 1;
        }
        proof {
            assert(tv.subrange(i as int, tv.len() as int) =~= Seq::<Seq<char>>::empty());
        }
        None
    }

    /// Check the deck against the card definitions: its commander and
    /// every card must be known.
    pub fn validate(&self, card_db: &CardDatabase) -> (r: Result<(), String>)
        ensures
            r is Ok <==> deck_valid(*self, *card_db),
            card_db.spec_get_commander(CardId(self.commander)) is None ==> (r matches Err(m)
                && m@ == "Commander "@ + dec(self.commander as nat) + " not found"@),
            card_db.spec_get_commander(CardId(self.commander)) is Some ==> (r matches Err(m) ==>
                m@ == "Card "@ + dec(self.cards@[first_unknown_card(self.cards@, *card_db)] as nat) + " not found"@),
    {
        if card_db.get_commander(CardId(self.commander)).is_none() {
            let mut m = String::from_str("Commander ");
            m.append(decimal(self.commander as u64).as_str());
            m.append(" not found");
            proof {
                reveal_strlit("Commander ");
                assert(m@ == "Commander "@ + dec(self.commander as nat) + " not found"@);
            }
            return Err(m);
        }
        let mut i: usize = 0;
        while i < self.cards.len()
            invariant
                i <= self.cards@.len(),
                forall|k: int| 0 <= k < i ==> (#[trigger] card_db.spec_get(CardId(self.cards@[k]))) is Some,
                card_db.spec_get_commander(CardId(self.commander)) is Some,
            decreases self.cards@.len() - i,
        {
            if card_db.get(CardId(self.cards[i])).is_none() {
                proof {
                    lemma_first_unknown_card(self.cards@, *card_db, i as int);
                }
                let mut m = String::from_str("Card ");
                m.append(decimal(self.cards[i] as u64).as_str());
                m.append(" not found");
                return Err(m);
            }
            i = i + 1;
        }
        Ok(())
    }

    /// A copy of the deck.
    pub fn duplicate(&self) -> (r: DeckDefinition)
        ensures
            copy_of(r, *self),
    {
        let cards = self.cards.clone();
        let tags = self.tags.clone();
        proof {
            assert(cards@ =~= self.cards@);
            assert forall|k: int| 0 <= k < tags@.len() implies tags@[k] == self.tags@[k] by {
                assert(cloned::<String>(self.tags[k], tags[k]));
            }
            assert(tags@ =~= self.tags@);
        }
        DeckDefinition {
            id: self.id.clone(),
            name: self.name.clone(),
            description: self.description.clone(),
            commander: self.commander,
            cards,
            tags,
            playstyle: self.playstyle.clone(),
        }
    }

    /// The deck's commander as a card id.
    pub fn commander_id(&self) -> (r: CardId)
        ensures
            r == CardId(self.commander),
    {
        CardId(self.commander)
    }
}

/// `a` is a copy of `b`: every field holds the same.
pub open spec fn copy_of(a: DeckDefinition, b: DeckDefinition) -> bool {
    &&& a.id == b.id
    &&& a.name == b.name
    &&& a.description == b.description
    &&& a.commander == b.commander
    &&& a.cards@ == b.cards@
    &&& a.tags@ == b.tags@
    &&& a.playstyle == b.playstyle
}

/// The faction a tag names, ignoring ASCII case.
pub open spec fn tag_names_faction(t: Seq<char>) -> Option<Faction> {
    if ascii_lower(t) == ascii_lower("argentum"@) {
        Some(Faction::Argentum)
    } else if ascii_lower(t) == ascii_lower("symbiote"@) {
        Some(Faction::Symbiote)
    } else if ascii_lower(t) == ascii_lower("obsidion"@) {
        Some(Faction::Obsidion)
    } else if ascii_lower(t) == ascii_lower("neutral"@) {
        Some(Faction::Neutral)
    } else {
        None
    }
}

/// The faction named by the first tag that names one.
pub open spec fn tags_faction(tags: Seq<Seq<char>>) -> Option<Faction>
    decreases tags.len(),
{
    if tags.len() == 0 {
        None
    } else if tag_names_faction(tags[0]) is Some {
        tag_names_faction(tags[0])
    } else {
        tags_faction(tags.drop_first())
    }
}

/// The faction a tag names, ignoring ASCII case.
pub fn tag_faction(t: &str) -> (r: Option<Faction>)
    ensures
        r == tag_names_faction(t@),
{
    if eq_ignore_ascii_case(t, "argentum") {
        Some(Faction::Argentum)
    } else if eq_ignore_ascii_case(t, "symbiote") {
        Some(Faction::Symbiote)
    } else if eq_ignore_ascii_case(t, "obsidion") {
        Some(Faction::Obsidion)
    } else if eq_ignore_ascii_case(t, "neutral") {
        Some(Faction::Neutral)
    } else {
        None
    }
}

/// A deck is valid when its commander and all its cards are known.
pub open spec fn deck_valid(d: DeckDefinition, db: CardDatabase) -> bool {
    &&& db.spec_get_commander(CardId(d.commander)) is Some
    &&& forall|k: int| 0 <= k < d.cards@.len() ==> (#[trigger] db.spec_get(CardId(d.cards@[k]))) is Some
}

/// The position of the first card that is not known.
pub open spec fn first_unknown_card(cards: Seq<u16>, db: CardDatabase) -> int {
    choose|k: int| 0 <= k < cards.len() && db.spec_get(CardId(cards[k])) is None
        && forall|j: int| 0 <= j < k ==> (#[trigger] db.spec_get(CardId(cards[j]))) is Some
}

/// The first unknown card is unique: a position with every card before it
/// known is that one.
proof fn lemma_first_unknown_card(cards: Seq<u16>, db: CardDatabase, i: int)
    requires
        0 <= i < cards.len(),
        db.spec_get(CardId(cards[i])) is None,
        forall|j: int| 0 <= j < i ==> (#[trigger] db.spec_get(CardId(cards[j]))) is Some,
    ensures
        first_unknown_card(cards, db) == i,
{
    let k = first_unknown_card(cards, db);
    assert(0 <= k < cards.len() && db.spec_get(CardId(cards[k])) is None
        && forall|j: int| 0 <= j < k ==> (#[trigger] db.spec_get(CardId(cards[j]))) is Some);
    if k < i {
        assert(db.spec_get(CardId(cards[k])) is Some);
    } else if k > i {
        assert(db.spec_get(CardId(cards[i])) is Some);
    }
}

/// The decks behind a list of references.
pub open spec fn deck_values(v: Seq<&DeckDefinition>) -> Seq<DeckDefinition> {
    v.map_values(|d: &DeckDefinition| *d)
}

/// The decks of a list whose tags name the faction, in order.
pub open spec fn faction_decks(ds: Seq<DeckDefinition>, faction: Faction) -> Seq<DeckDefinition> {
    ds.filter(|d: DeckDefinition| tags_faction(d.tags@.map_values(|t: String| t@)) == Some(faction))
}

/// The decks known by id; adding keeps ids unique.
#[derive(Clone, Debug)]
pub struct DeckRegistry {
    decks: Vec<DeckDefinition>,
}

/// No two decks share an id.
pub open spec fn ids_unique(ds: Seq<DeckDefinition>) -> bool {
    forall|i: int, j: int| 0 <= i < j < ds.len() ==> (#[trigger] ds[i]).id@ != (#[trigger] ds[j]).id@
}

/// The position of the first deck at or after `i` with this id, or -1.
pub open spec fn deck_index_from(ds: Seq<DeckDefinition>, id: Seq<char>, i: int) -> int
    decreases ds.len() - i,
{
    if i < 0 || i >= ds.len() {
        -1
    } else if ds[i].id@ == id {
        i
    } else {
        deck_index_from(ds, id, i + 1)
    }
}

/// The deck with this id, if any (the first one).
pub open spec fn deck_lookup(ds: Seq<DeckDefinition>, id: Seq<char>) -> Option<DeckDefinition> {
    let k = deck_index_from(ds, id, 0);
    if k == -1 { None } else { Some(ds[k]) }
}

proof fn lemma_deck_index_range(ds: Seq<DeckDefinition>, id: Seq<char>, i: int)
    requires
        0 <= i,
    ensures
        deck_index_from(ds, id, i) == -1 <==> forall|k: int| i <= k < ds.len() ==> (#[trigger] ds[k]).id@ != id,
        deck_index_from(ds, id, i) != -1 ==> i <= deck_index_from(ds, id, i) < ds.len()
            && ds[deck_index_from(ds, id, i)].id@ == id,
        forall|k: int| i <= k < ds.len() && (deck_index_from(ds, id, i) == -1 || k < deck_index_from(ds, id, i))
            ==> (#[trigger] ds[k]).id@ != id,
    decreases ds.len() - i,
{
    if i < ds.len() && ds[i].id@ != id {
        lemma_deck_index_range(ds, id, i + 1);
    }
}

/// Two sequences that agree wherever `id` matches (and on where it matches)
/// give the same lookup from `i` on.
proof fn lemma_deck_index_agree(a: Seq<DeckDefinition>, b: Seq<DeckDefinition>, id: Seq<char>, i: int)
    requires
        0 <= i,
        a.len() == b.len(),
        forall|k: int| i <= k < a.len() ==> ((#[trigger] a[k]).id@ == id) == (b[k].id@ == id),
        forall|k: int| i <= k < a.len() && (#[trigger] a[k]).id@ == id ==> a[k] == b[k],
    ensures
        deck_index_from(a, id, i) == deck_index_from(b, id, i),
    decreases a.len() - i,
{
    if i < a.len() && a[i].id@ != id {
        lemma_deck_index_agree(a, b, id, i + 1);
    }
}

/// Appending a deck with another id leaves the lookup of `id` as it was.
proof fn lemma_deck_index_push(a: Seq<DeckDefinition>, d: DeckDefinition, id: Seq<char>, i: int)
    requires
        0 <= i <= a.len(),
        d.id@ != id,
    ensures
        deck_index_from(a.push(d), id, i) == deck_index_from(a, id, i),
    decreases a.len() - i,
{
    let b = a.push(d);
    if i < a.len() {
        assert(b[i] == a[i]);
        if a[i].id@ != id {
            lemma_deck_index_push(a, d, id, i + 1);
        }
    } else {
        assert(b[i] == d);
        assert(deck_index_from(b, id, i + 1) == -1);
    }
}

impl DeckRegistry {
    /// The decks, in the order they were added.
    pub closed spec fn spec_decks(&self) -> Seq<DeckDefinition> {
        self.decks@
    }

    /// The deck with this id, if any.
    pub open spec fn spec_get(&self, id: Seq<char>) -> Option<DeckDefinition> {
        deck_lookup(self.spec_decks(), id)
    }

    /// An empty registry.
    pub fn new() -> (r: DeckRegistry)
        ensures
            r.spec_decks().len() == 0,
            ids_unique(r.spec_decks()),
            forall|id: Seq<char>| #[trigger] r.spec_get(id) is None,
    {
        DeckRegistry { decks: Vec::new() }
    }

    /// Add a deck; one with the same id is replaced in place, else it is
    /// appended.
    pub fn add(&mut self, deck: DeckDefinition)
        ensures
            final(self).spec_get(deck.id@) == Some(deck),
            forall|id: Seq<char>| id != deck.id@ ==> #[trigger] final(self).spec_get(id) == old(self).spec_get(id),
            ids_unique(old(self).spec_decks()) ==> ids_unique(final(self).spec_decks()),
            old(self).spec_get(deck.id@) is Some ==> final(self).spec_decks().len() == old(self).spec_decks().len(),
            old(self).spec_get(deck.id@) is None ==> final(self).spec_decks() == old(self).spec_decks().push(deck),
    {
        let ghost ds0 = self.decks@;
        let ghost did = deck.id@;
        proof { lemma_deck_index_range(ds0, did, 0); }
        let mut i: usize = 0;
        while i < self.decks.len()
            invariant
                i <= ds0.len(),
                self.decks@ == ds0,
                old(self).decks@ == ds0,
                did == deck.id@,
                deck_index_from(ds0, did, 0) == deck_index_from(ds0, did, i as int),
            decreases ds0.len() - i,
        {
            if str_eq(self.decks[i].id.as_str(), deck.id.as_str()) {
                let ghost old_i = ds0[i as int];
                self.decks.set(i, deck);
                proof {
                    let ds1 = self.decks@;
                    assert(ds1 == ds0.update(i as int, deck));
                    assert(old_i.id@ == did);
                    assert(deck_index_from(ds0, did, 0) == i);
                    lemma_deck_index_range(ds0, did, 0);
                    assert forall|k: int| 0 <= k < ds0.len() implies ((#[trigger] ds0[k]).id@ == did) == (ds1[k].id@ == did)
                    by {
                        if k == i { assert(ds1[k] == deck); }
                    }
                    assert forall|k: int| 0 <= k < i implies (#[trigger] ds1[k]).id@ != did by {
                        assert(ds1[k] == ds0[k]);
                        lemma_deck_index_range(ds0, did, 0);
                    }
                    lemma_deck_index_range(ds1, did, 0);
                    assert(deck_index_from(ds1, did, 0) == i as int) by {
                        lemma_deck_index_range(ds1, did, 0);
                        if deck_index_from(ds1, did, 0) < i {
                            let k = deck_index_from(ds1, did, 0);
                            assert(ds1[k].id@ == did);
                        }
                    }
                    assert forall|id: Seq<char>| id != did implies #[trigger] deck_lookup(ds1, id) == deck_lookup(ds0, id) by {
                        assert forall|k: int| 0 <= k < ds1.len() implies ((#[trigger] ds1[k]).id@ == id) == (ds0[k].id@ == id) by {
                            if k == i { assert(ds1[k] == deck); }
                        }
                        assert forall|k: int| 0 <= k < ds1.len() && (#[trigger] ds1[k]).id@ == id implies ds1[k] == ds0[k] by {
                            if k == i { assert(ds1[k] == deck); }
                        }
                        lemma_deck_index_agree(ds1, ds0, id, 0);
                        lemma_deck_index_range(ds0, id, 0);
                    }
                    assert(self.spec_decks() == ds1);
                    assert(old(self).spec_decks() == ds0);
                    assert forall|id: Seq<char>| id != did implies #[trigger] self.spec_get(id) == old(self).spec_get(id) by {
                        assert(deck_lookup(ds1, id) == deck_lookup(ds0, id));
                    }
                    if ids_unique(ds0) {
                        assert forall|a: int, b: int| 0 <= a < b < ds1.len() implies (#[trigger] ds1[a]).id@ != (#[trigger] ds1[b]).id@ by {
                            assert(ds0[a].id@ != ds0[b].id@);
                            assert(ds1[a].id@ == ds0[a].id@);
                            assert(ds1[b].id@ == ds0[b].id@);
                        }
                    }
                }
                return;
            }
            i = i + 1;
        }
        self.decks.push(deck);
        proof {
            let ds1 = self.decks@;
            assert(ds1 == ds0.push(deck));
            assert(deck_index_from(ds0, did, ds0.len() as int) == -1);
            lemma_deck_index_range(ds0, did, 0);
            assert forall|k: int| 0 <= k < ds0.len() implies (#[trigger] ds1[k]).id@ != did by {
                assert(ds1[k] == ds0[k]);
            }
            assert(ds1[ds0.len() as int] == deck);
            lemma_deck_index_range(ds1, did, 0);
            assert(deck_index_from(ds1, did, 0) == ds0.len() as int);
            assert forall|id: Seq<char>| id != did implies #[trigger] deck_lookup(ds1, id) == deck_lookup(ds0, id) by {
                lemma_deck_index_push(ds0, deck, id, 0);
                lemma_deck_index_range(ds0, id, 0);
            }
            if ids_unique(ds0) {
                assert forall|a: int, b: int| 0 <= a < b < ds1.len() implies (#[trigger] ds1[a]).id@ != (#[trigger] ds1[b]).id@ by {
                    if b < ds0.len() {
                        assert(ds0[a].id@ != ds0[b].id@);
                    } else {
                        assert(ds1[a] == ds0[a]);
                    }
                }
            }
        }
    }

    /// The deck with this id, if any.
    pub fn get(&self, id: &str) -> (r: Option<&DeckDefinition>)
        ensures
            r == (match self.spec_get(id@) { Some(d) => Some(&d), None => None }),
    {
        proof { lemma_deck_index_range(self.decks@, id@, 0); }
        let mut i: usize = 0;
        while i < self.decks.len()
            invariant
                i <= self.decks@.len(),
                deck_index_from(self.decks@, id@, 0) == deck_index_from(self.decks@, id@, i as int),
            decreases self.decks@.len() - i,
        {
            if str_eq(self.decks[i].id.as_str(), id) {
                return Some(&self.decks[i]);
            }
            i = i + 1;
        }
        None
    }

    /// All decks, in the order they were added.
    pub fn decks(&self) -> (r: &Vec<DeckDefinition>)
        ensures
            r@ == self.spec_decks(),
    {
        &self.decks
    }

    /// The decks of a faction, in the order they were added.
    pub fn decks_for_faction(&self, faction: Faction) -> (r: Vec<&DeckDefinition>)
        ensures
            deck_values(r@) == faction_decks(self.spec_decks(), faction),
    {
        let ghost pred = |d: DeckDefinition| tags_faction(d.tags@.map_values(|t: String| t@)) == Some(faction);
        let mut out: Vec<&DeckDefinition> = Vec::new();
        let mut i: usize = 0;
        while i < self.decks.len()
            invariant
                i <= self.decks@.len(),
                pred == (|d: DeckDefinition| tags_faction(d.tags@.map_values(|t: String| t@)) == Some(faction)),
                out@.map_values(|d: &DeckDefinition| *d) == self.decks@.subrange(0, i as int).filter(pred),
            decreases self.decks@.len() - i,
        {
            proof {
                assert(self.decks@.subrange(0, i + 1).drop_last() =~= self.decks@.subrange(0, i as int));
                reveal(Seq::filter);
            }
            let f = self.decks[i].faction();
            if f == Some(faction) {
                out.push(&self.decks[i]);
            }
            proof {
                assert(out@.map_values(|d: &DeckDefinition| *d) =~= self.decks@.subrange(0, i + 1).filter(pred));
            }
            i = i + 1;
        }
        proof {
            assert(self.decks@.subrange(0, self.decks@.len() as int) =~= self.decks@);
        }
        out
    }

    /// The number of decks.
    pub fn len(&self) -> (r: usize)
        ensures
            r == self.spec_decks().len(),
    {
        self.decks.len()
    }

    /// Whether there are no decks.
    pub fn is_empty(&self) -> (r: bool)
        ensures
            r == (self.spec_decks().len() == 0),
    {
        self.decks.len() == 0
    }
}

} // verus!
