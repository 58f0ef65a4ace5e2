//! Choosing decks for arena matches: loading one from the registry and
//! checking that a specialist agent plays its own faction.

use vstd::prelude::*;
use crate::bots::factory::{bot_display_name, BotType};
use crate::decks::{copy_of, deck_valid, first_unknown_card, tags_faction, DeckDefinition, DeckRegistry, Faction};
use crate::gamecore::cards::CardDatabase;
use crate::gamecore::text::dec;
use crate::gamecore::types::CardId;

verus! {

/// The display name of a faction.
pub open spec fn faction_name(f: Faction) -> Seq<char> {
    match f {
        Faction::Argentum => "Argentum"@,
        Faction::Symbiote => "Symbiote"@,
        Faction::Obsidion => "Obsidion"@,
        Faction::Neutral => "Neutral"@,
    }
}

/// The validation error of a deck that is not valid.
pub open spec fn validation_message(d: DeckDefinition, db: CardDatabase) -> Seq<char> {
    if db.spec_get_commander(CardId(d.commander)) is None {
        "Commander "@ + dec(d.commander as nat) + " not found"@
    } else {
        "Card "@ + dec(d.cards@[first_unknown_card(d.cards@, db)] as nat) + " not found"@
    }
}

/// What loading a deck gives: the deck, or the error text.
pub open spec fn load_outcome(deck_id: Option<Seq<char>>, reg: DeckRegistry, db: CardDatabase, label: Seq<char>)
    -> Result<DeckDefinition, Seq<char>> {
    match deck_id {
        None => Err("No deck specified for player "@ + label + ". Use --deck"@ + label
            + " <DECK_ID> to specify a deck, or --list-decks to see available decks."@),
        Some(id) => match reg.spec_get(id) {
            None => Err("Deck '"@ + id + "' not found. Use --list-decks to see available decks."@),
            Some(d) => if deck_valid(d, db) {
                Ok(d)
            } else {
                Err("Deck '"@ + id + "' validation error: "@ + validation_message(d, db))
            },
        },
    }
}

/// The deck of the given id, checked against the card definitions.
pub fn load_deck(deck_id: Option<&str>, registry: &DeckRegistry, card_db: &CardDatabase, player_label: &str)
    -> (r: Result<DeckDefinition, String>)
    ensures
        (match load_outcome(match deck_id { Some(i) => Some(i@), None => None }, *registry, *card_db, player_label@) {
            Ok(d) => r matches Ok(c) && copy_of(c, d),
            Err(msg) => r matches Err(m) && m@ == msg,
        }),
{
    match deck_id {
        Some(id) => match registry.get(id) {
            Some(deck) => {
                match deck.validate(card_db) {
                    Err(e) => {
                        let mut m = String::from_str("Deck '");
                        m.append(id);
                        m.append("' validation error: ");
                        m.append(e.as_str());
                        Err(m)
                    }
                    Ok(()) => Ok(deck.duplicate()),
                }
            }
            None => {
                let mut m = String::from_str("Deck '");
                m.append(id);
                m.append("' not found. Use --list-decks to see available decks.");
                Err(m)
            }
        },
        None => {
            let mut m = String::from_str("No deck specified for player ");
            m.append(player_label);
            m.append(". Use --deck");
            m.append(player_label);
            m.append(" <DECK_ID> to specify a deck, or --list-decks to see available decks.");
            Err(m)
        }
    }
}

/// The warning for a specialist agent on a deck of another faction, or on a
/// deck of no faction; none for other bots, when no deck is chosen, or when
/// the deck is unknown.
pub open spec fn binding_warning(b: BotType, deck_id: Option<Seq<char>>, reg: DeckRegistry, label: Seq<char>)
    -> Option<Seq<char>> {
    match (b, deck_id) {
        (BotType::AgentSpecialist(sf), Some(id)) => match reg.spec_get(id) {
            Some(d) => match tags_faction(d.tags@.map_values(|t: String| t@)) {
                Some(df) => if df != sf {
                    Some("Warning: "@ + label + " ("@ + bot_display_name(b) + ") is using a "@ + faction_name(df)
                        + " deck ('"@ + id + "'), but specialists work best with their faction's decks.\n  Recommended: Use a "@
                        + faction_name(sf) + " deck for "@ + faction_name(sf) + " specialists."@)
                } else {
                    None
                },
                None => Some("Warning: "@ + label + " ("@ + bot_display_name(b) + ") is using a non-faction deck ('"@
                    + id + "').\n  Recommended: Use a "@ + faction_name(sf) + " deck for "@ + faction_name(sf)
                    + " specialists."@),
            },
            None => None,
        },
        _ => None,
    }
}

/// Check that a specialist agent plays a deck of its own faction.
pub fn validate_faction_deck_binding(bot_type: &BotType, deck_id: Option<&str>, deck_registry: &DeckRegistry,
    bot_label: &str) -> (r: Option<String>)
    ensures
        r is None <==> binding_warning(*bot_type, match deck_id { Some(i) => Some(i@), None => None },
            *deck_registry, bot_label@) is None,
        r matches Some(m) ==> m@ == binding_warning(*bot_type, match deck_id { Some(i) => Some(i@), None => None },
            *deck_registry, bot_label@)->0,
{
    let specialist_faction = match bot_type {
        BotType::AgentSpecialist(faction) => *faction,
        _ => return None,
    };
    let id = match deck_id {
        Some(i) => i,
        None => return None,
    };
    let deck = match deck_registry.get(id) {
        Some(d) => d,
        None => return None,
    };
    match deck.faction() {
        Some(deck_faction) => {
            if deck_faction != specialist_faction {
                let mut m = String::from_str("Warning: ");
                m.append(bot_label);
                m.append(" (");
                m.append(bot_type.name());
                m.append(") is using a ");
                m.append(deck_faction.display_name());
                m.append(" deck ('");
                m.append(id);
                m.append("'), but specialists work best with their faction's decks.\n  Recommended: Use a ");
                m.append(specialist_faction.display_name());
                m.append(" deck for ");
                m.append(specialist_faction.display_name());
                m.append(" specialists.");
                Some(m)
            } else {
                None
            }
        }
        None => {
            let mut m = String::from_str("Warning: ");
            m.append(bot_label);
            m.append(" (");
            m.append(bot_type.name());
            m.append(") is using a non-faction deck ('");
            m.append(id);
            m.append("').\n  Recommended: Use a ");
            m.append(specialist_faction.display_name());
            m.append(" deck for ");
            m.append(specialist_faction.display_name());
            m.append(" specialists.");
            Some(m)
        }
    }
}

} // verus!
