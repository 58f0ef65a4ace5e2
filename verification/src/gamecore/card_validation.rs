//! Checks on card and commander definitions as loaded from data files:
//! unique ids, sane creature stats, and sane values in effects.

use vstd::prelude::*;
use crate::gamecore::cards::{card_ids_of, commander_ids_of, AbilityDefinition, CardDefinition, CardType, CommanderDefinition, ConditionalEffectGroup,
    EffectDefinition, TokenDef};
use crate::gamecore::text::{dec, decimal, signed_dec, signed_decimal};

verus! {

/// "Card <id> '<name>' has ".
pub open spec fn card_prefix(card: CardDefinition) -> Seq<char> {
    "Card "@ + dec(card.id as nat) + " '"@ + card.name@ + "' has "@
}

/// The absolute value of a buff, as a mathematical integer.
pub open spec fn abs_int(x: int) -> int {
    if x < 0 { -x } else { x }
}

/// The complaint about a token created by an effect (`what` names the
/// effect), if any: zero health, or health or attack over 50.
pub open spec fn token_error(card: CardDefinition, what: Seq<char>, t: TokenDef) -> Option<Seq<char>> {
    if t.health == 0 {
        Some(card_prefix(card) + what + " effect with invalid health: 0 (must be > 0)"@)
    } else if t.health > 50 {
        Some(card_prefix(card) + what + " effect with extreme health: "@ + dec(t.health as nat) + " (max 50)"@)
    } else if t.attack > 50 {
        Some(card_prefix(card) + what + " effect with extreme attack: "@ + dec(t.attack as nat) + " (max 50)"@)
    } else {
        None
    }
}

/// The complaint about one effect of a card, if any: buffs beyond 20 either
/// way, and tokens (summoned or transformed into) with bad stats.
pub open spec fn effect_error(card: CardDefinition, e: EffectDefinition) -> Option<Seq<char>> {
    match e {
        EffectDefinition::BuffStats { attack, health, .. } => if abs_int(attack as int) > 20 {
            Some(card_prefix(card) + "extreme attack buff: "@ + signed_dec(attack as int) + " (abs max 20)"@)
        } else if abs_int(health as int) > 20 {
            Some(card_prefix(card) + "extreme health buff: "@ + signed_dec(health as int) + " (abs max 20)"@)
        } else {
            None
        },
        EffectDefinition::Transform { into } => token_error(card, "Transform"@, into),
        EffectDefinition::SummonToken { token } => token_error(card, "SummonToken"@, token),
        _ => None,
    }
}

/// The first complaint about a list of effects.
pub open spec fn effects_error(card: CardDefinition, es: Seq<EffectDefinition>) -> Option<Seq<char>>
    decreases es.len(),
{
    if es.len() == 0 {
        None
    } else if effect_error(card, es[0]) is Some {
        effect_error(card, es[0])
    } else {
        effects_error(card, es.drop_first())
    }
}

/// The first complaint about the effects of a list of conditional groups.
pub open spec fn groups_error(card: CardDefinition, gs: Seq<ConditionalEffectGroup>) -> Option<Seq<char>>
    decreases gs.len(),
{
    if gs.len() == 0 {
        None
    } else if effects_error(card, gs[0].effects@) is Some {
        effects_error(card, gs[0].effects@)
    } else {
        groups_error(card, gs.drop_first())
    }
}

/// The first complaint about an ability: its effects, then its conditional ones.
pub open spec fn ability_error(card: CardDefinition, a: AbilityDefinition) -> Option<Seq<char>> {
    if effects_error(card, a.effects@) is Some {
        effects_error(card, a.effects@)
    } else {
        groups_error(card, a.conditional_effects@)
    }
}

/// The first complaint about a list of abilities.
pub open spec fn abilities_error(card: CardDefinition, abs: Seq<AbilityDefinition>) -> Option<Seq<char>>
    decreases abs.len(),
{
    if abs.len() == 0 {
        None
    } else if ability_error(card, abs[0]) is Some {
        ability_error(card, abs[0])
    } else {
        abilities_error(card, abs.drop_first())
    }
}

/// The first complaint about a card: a creature's base stats (health 1 to
/// 50, attack at most 50) and then its abilities; a spell's effects and
/// conditional effects; a support's triggered abilities.
pub open spec fn card_error(card: CardDefinition) -> Option<Seq<char>> {
    match card.card_type {
        CardType::Creature { attack, health, abilities, .. } => if health == 0 {
            Some(card_prefix(card) + "invalid base health: 0 (must be > 0)"@)
        } else if health > 50 {
            Some(card_prefix(card) + "suspiciously high health: "@ + dec(health as nat) + " (max 50)"@)
        } else if attack > 50 {
            Some(card_prefix(card) + "suspiciously high attack: "@ + dec(attack as nat) + " (max 50)"@)
        } else {
            abilities_error(card, abilities@)
        },
        CardType::Spell { effects, conditional_effects, .. } => if effects_error(card, effects@) is Some {
            effects_error(card, effects@)
        } else {
            groups_error(card, conditional_effects@)
        },
        CardType::Support { triggered_effects, .. } => abilities_error(card, triggered_effects@),
    }
}

fn card_message(card: &CardDefinition, rest: &str) -> (r: String)
    ensures
        r@ == card_prefix(*card) + rest@,
{
    let mut m = String::from_str("Card ");
    m.append(decimal(card.id as u64).as_str());
    m.append(" '");
    m.append(card.name.as_str());
    m.append("' has ");
    m.append(rest);
    m
}

fn token_check(card: &CardDefinition, what: &str, t: &TokenDef) -> (r: Result<(), String>)
    ensures
        r is Ok <==> token_error(*card, what@, *t) is None,
        r matches Err(m) ==> m@ == token_error(*card, what@, *t)->0,
{
    if t.health == 0 {
        let mut m = card_message(card, what);
        m.append(" effect with invalid health: 0 (must be > 0)");
        return Err(m);
    }
    if t.health > 50 {
        let mut m = card_message(card, what);
        m.append(" effect with extreme health: ");
        m.append(decimal(t.health as u64).as_str());
        m.append(" (max 50)");
        return Err(m);
    }
    if t.attack > 50 {
        let mut m = card_message(card, what);
        m.append(" effect with extreme attack: ");
        m.append(decimal(t.attack as u64).as_str());
        m.append(" (max 50)");
        return Err(m);
    }
    Ok(())
}

/// Check one effect of a card for values that are likely data entry errors.
pub fn validate_effect_definition(card: &CardDefinition, effect: &EffectDefinition) -> (r: Result<(), String>)
    ensures
        r is Ok <==> effect_error(*card, *effect) is None,
        r matches Err(m) ==> m@ == effect_error(*card, *effect)->0,
{
    match effect {
        EffectDefinition::BuffStats { attack, health, .. } => {
            let a = *attack as i16;
            let h = *health as i16;
            if (if a < 0 { -a } else { a }) > 20 {
                let mut m = card_message(card, "extreme attack buff: ");
                m.append(signed_decimal(*attack as i64).as_str());
                m.append(" (abs max 20)");
                return Err(m);
            }
            if (if h < 0 { -h } else { h }) > 20 {
                let mut m = card_message(card, "extreme health buff: ");
                m.append(signed_decimal(*health as i64).as_str());
                m.append(" (abs max 20)");
                return Err(m);
            }
            Ok(())
        }
        EffectDefinition::Transform { into } => token_check(card, "Transform", into),
        EffectDefinition::SummonToken { token } => token_check(card, "SummonToken", token),
        _ => Ok(()),
    }
}

fn validate_effects(card: &CardDefinition, es: &Vec<EffectDefinition>) -> (r: Result<(), String>)
    ensures
        r is Ok <==> effects_error(*card, es@) is None,
        r matches Err(m) ==> m@ == effects_error(*card, es@)->0,
{
    let mut i: usize = 0;
    proof { assert(es@.subrange(0, es@.len() as int) =~= es@); }
    while i < es.len()
        invariant
            i <= es@.len(),
            effects_error(*card, es@) == effects_error(*card, es@.subrange(i as int, es@.len() as int)),
        decreases es@.len() - i,
    {
        proof {
            let rest = es@.subrange(i as int, es@.len() as int);
            assert(rest[0] == es@[i as int]);
            assert(rest.drop_first() =~= es@.subrange(i + 1, es@.len() as int));
        }
        validate_effect_definition(card, &es[i])?;
        i = i + 1;
    }
    proof { assert(es@.subrange(i as int, es@.len() as int) =~= Seq::<EffectDefinition>::empty()); }
    Ok(())
}

fn validate_groups(card: &CardDefinition, gs: &Vec<ConditionalEffectGroup>) -> (r: Result<(), String>)
    ensures
        r is Ok <==> groups_error(*card, gs@) is None,
        r matches Err(m) ==> m@ == groups_error(*card, gs@)->0,
{
    let mut i: usize = 0;
    proof { assert(gs@.subrange(0, gs@.len() as int) =~= gs@); }
    while i < gs.len()
        invariant
            i <= gs@.len(),
            groups_error(*card, gs@) == groups_error(*card, gs@.subrange(i as int, gs@.len() as int)),
        decreases gs@.len() - i,
    {
        proof {
            let rest = gs@.subrange(i as int, gs@.len() as int);
            assert(rest[0] == gs@[i as int]);
            assert(rest.drop_first() =~= gs@.subrange(i + 1, gs@.len() as int));
        }
        validate_effects(card, &gs[i].effects)?;
        i = i + 1;
    }
    proof { assert(gs@.subrange(i as int, gs@.len() as int) =~= Seq::<ConditionalEffectGroup>::empty()); }
    Ok(())
}

fn validate_abilities(card: &CardDefinition, abs: &Vec<AbilityDefinition>) -> (r: Result<(), String>)
    ensures
        r is Ok <==> abilities_error(*card, abs@) is None,
        r matches Err(m) ==> m@ == abilities_error(*card, abs@)->0,
{
    let mut i: usize = 0;
    proof { assert(abs@.subrange(0, abs@.len() as int) =~= abs@); }
    while i < abs.len()
        invariant
            i <= abs@.len(),
            abilities_error(*card, abs@) == abilities_error(*card, abs@.subrange(i as int, abs@.len() as int)),
        decreases abs@.len() - i,
    {
        proof {
            let rest = abs@.subrange(i as int, abs@.len() as int);
            assert(rest[0] == abs@[i as int]);
            assert(rest.drop_first() =~= abs@.subrange(i + 1, abs@.len() as int));
        }
        validate_effects(card, &abs[i].effects)?;
        validate_groups(card, &abs[i].conditional_effects)?;
        i = i + 1;
    }
    proof { assert(abs@.subrange(i as int, abs@.len() as int) =~= Seq::<AbilityDefinition>::empty()); }
    Ok(())
}

/// Check one card's definition.
pub fn validate_card(card: &CardDefinition) -> (r: Result<(), String>)
    ensures
        r is Ok <==> card_error(*card) is None,
        r matches Err(m) ==> m@ == card_error(*card)->0,
{
    match &card.card_type {
        CardType::Creature { attack, health, abilities, .. } => {
            if *health == 0 {
                return Err(card_message(card, "invalid base health: 0 (must be > 0)"));
            }
            if *health > 50 {
                let mut m = card_message(card, "suspiciously high health: ");
                m.append(decimal(*health as u64).as_str());
                m.append(" (max 50)");
                return Err(m);
            }
            if *attack > 50 {
                let mut m = card_message(card, "suspiciously high attack: ");
                m.append(decimal(*attack as u64).as_str());
                m.append(" (max 50)");
                return Err(m);
            }
            validate_abilities(card, abilities)
        }
        CardType::Spell { effects, conditional_effects, .. } => {
            validate_effects(card, effects)?;
            validate_groups(card, conditional_effects)
        }
        CardType::Support { triggered_effects, .. } => validate_abilities(card, triggered_effects),
    }
}

/// Whether no id occurs twice.
pub open spec fn ids_distinct(ids: Seq<u16>) -> bool {
    forall|j: int, k: int| 0 <= j < k < ids.len() ==> ids[j] != ids[k]
}

/// Position `k` holds the first id that repeats an earlier one.
pub open spec fn first_repeat_at(ids: Seq<u16>, k: int) -> bool {
    &&& 0 <= k < ids.len()
    &&& exists|j: int| 0 <= j < k && ids[j] == ids[k]
    &&& forall|k2: int, j2: int| 0 <= j2 < k2 < k ==> ids[j2] != ids[k2]
}

/// The position of the first id that repeats an earlier one, if any.
pub fn find_first_repeat(ids: &Vec<u16>) -> (r: Option<usize>)
    ensures
        r is None <==> ids_distinct(ids@),
        r matches Some(k) ==> first_repeat_at(ids@, k as int),
{
    let mut k: usize = 0;
    while k < ids.len()
        invariant
            k <= ids@.len(),
            forall|k2: int, j2: int| 0 <= j2 < k2 < k ==> ids@[j2] != ids@[k2],
        decreases ids@.len() - k,
    {
        let mut j: usize = 0;
        while j < k
            invariant
                j <= k < ids@.len(),
                forall|j2: int| 0 <= j2 < j ==> ids@[j2] != ids@[k as int],
                forall|k2: int, j2: int| 0 <= j2 < k2 < k ==> ids@[j2] != ids@[k2],
            decreases k - j,
        {
            if ids[j] == ids[k] {
                proof { assert(ids@[j as int] == ids@[k as int]); }
                return Some(k);
            }
            j = j + 1;
        }
        k = k + 1;
    }
    None
}

fn ids_of_cards(cards: &Vec<CardDefinition>) -> (r: Vec<u16>)
    ensures
        r@ == card_ids_of(cards@),
{
    let mut out: Vec<u16> = Vec::new();
    let mut i: usize = 0;
    while i < cards.len()
        invariant
            i <= cards@.len(),
            out@ == card_ids_of(cards@.subrange(0, i as int)),
        decreases cards@.len() - i,
    {
        out.push(cards[i].id);
        proof { assert(card_ids_of(cards@.subrange(0, i + 1)) =~= card_ids_of(cards@.subrange(0, i as int)).push(cards@[i as int].id)); }
        i = i + 1;
    }
    proof { assert(cards@.subrange(0, cards@.len() as int) =~= cards@); }
    out
}

fn ids_of_commanders(cs: &Vec<CommanderDefinition>) -> (r: Vec<u16>)
    ensures
        r@ == commander_ids_of(cs@),
{
    let mut out: Vec<u16> = Vec::new();
    let mut i: usize = 0;
    while i < cs.len()
        invariant
            i <= cs@.len(),
            out@ == commander_ids_of(cs@.subrange(0, i as int)),
        decreases cs@.len() - i,
    {
        out.push(cs[i].id);
        proof { assert(commander_ids_of(cs@.subrange(0, i + 1)) =~= commander_ids_of(cs@.subrange(0, i as int)).push(cs@[i as int].id)); }
        i = i + 1;
    }
    proof { assert(cs@.subrange(0, cs@.len() as int) =~= cs@); }
    out
}

/// Check that no two cards share an id: "Duplicate card ID: <id>" names the
/// first card whose id was seen before.
pub fn check_unique_card_ids(cards: &Vec<CardDefinition>) -> (r: Result<(), String>)
    ensures
        r is Ok <==> ids_distinct(card_ids_of(cards@)),
        r matches Err(m) ==> exists|k: int| first_repeat_at(card_ids_of(cards@), k)
            && m@ == "Duplicate card ID: "@ + dec(cards@[k].id as nat),
{
    let ids = ids_of_cards(cards);
    match find_first_repeat(&ids) {
        Some(k) => {
            let mut m = String::from_str("Duplicate card ID: ");
            m.append(decimal(ids[k] as u64).as_str());
            proof { assert(ids@[k as int] == cards@[k as int].id); }
            Err(m)
        }
        None => Ok(()),
    }
}

/// Check that no two commanders share an id: "Duplicate commander ID: <id>"
/// names the first commander whose id was seen before.
pub fn check_unique_commander_ids(cs: &Vec<CommanderDefinition>) -> (r: Result<(), String>)
    ensures
        r is Ok <==> ids_distinct(commander_ids_of(cs@)),
        r matches Err(m) ==> exists|k: int| first_repeat_at(commander_ids_of(cs@), k)
            && m@ == "Duplicate commander ID: "@ + dec(cs@[k].id as nat),
{
    let ids = ids_of_commanders(cs);
    match find_first_repeat(&ids) {
        Some(k) => {
            let mut m = String::from_str("Duplicate commander ID: ");
            m.append(decimal(ids[k] as u64).as_str());
            proof { assert(ids@[k as int] == cs@[k as int].id); }
            Err(m)
        }
        None => Ok(()),
    }
}

/// The first complaint about a list of cards.
pub open spec fn cards_error(cards: Seq<CardDefinition>) -> Option<Seq<char>>
    decreases cards.len(),
{
    if cards.len() == 0 {
        None
    } else if card_error(cards[0]) is Some {
        card_error(cards[0])
    } else {
        cards_error(cards.drop_first())
    }
}

/// Check the cards loaded from a directory (shown as `dir`): there is at
/// least one, no two share an id, and each card's definition is sane.
pub fn validate_loaded_cards(cards: &Vec<CardDefinition>, dir: &str) -> (r: Result<(), String>)
    ensures
        r is Ok <==> cards@.len() > 0 && ids_distinct(card_ids_of(cards@)) && cards_error(cards@) is None,
        cards@.len() == 0 ==> (r matches Err(m) && m@ == "No cards found in directory: "@ + dir@
            + ". Expected .yaml or .yml files with card definitions."@),
        cards@.len() > 0 && ids_distinct(card_ids_of(cards@)) ==> (r matches Err(m) ==> m@ == cards_error(cards@)->0),
{
    if cards.len() == 0 {
        let mut m = String::from_str("No cards found in directory: ");
        m.append(dir);
        m.append(". Expected .yaml or .yml files with card definitions.");
        return Err(m);
    }
    check_unique_card_ids(cards)?;
    let mut i: usize = 0;
    proof { assert(cards@.subrange(0, cards@.len() as int) =~= cards@); }
    while i < cards.len()
        invariant
            i <= cards@.len(),
            cards_error(cards@) == cards_error(cards@.subrange(i as int, cards@.len() as int)),
        decreases cards@.len() - i,
    {
        proof {
            let rest = cards@.subrange(i as int, cards@.len() as int);
            assert(rest[0] == cards@[i as int]);
            assert(rest.drop_first() =~= cards@.subrange(i + 1, cards@.len() as int));
        }
        validate_card(&cards[i])?;
        i = i + 1;
    }
    proof { assert(cards@.subrange(i as int, cards@.len() as int) =~= Seq::<CardDefinition>::empty()); }
    Ok(())
}

} // verus!
