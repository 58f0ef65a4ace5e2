//! Card and commander definitions and the card database.

use vstd::prelude::*;
use crate::gamecore::effects::{
    Condition, CreatureFilter, TargetingRule, TokenAbility, TokenDefinition, TokenEffect, Trigger,
    duplicate_token_effects,
};
use crate::gamecore::keywords::{Keywords, keyword_bits_of_names};
use crate::gamecore::types::CardId;

verus! {

/// How rare a card is.
#[derive(Clone, Copy, Debug, PartialEq, Eq, Structural)]
pub enum Rarity {
    Common,
    Uncommon,
    Rare,
    Legendary,
}

impl Default for Rarity {
    fn default() -> (r: Rarity)
        ensures
            r == Rarity::Common,
    {
        Rarity::Common
    }
}

/// Definition of a triggered or activated ability on a creature or support.
#[derive(Clone, Debug)]
pub struct AbilityDefinition {
    pub trigger: Trigger,
    pub targeting: TargetingRule,
    pub effects: Vec<EffectDefinition>,
    /// Effects that fire when a condition on the primary effects' result holds.
    pub conditional_effects: Vec<ConditionalEffectGroup>,
    /// Essence paid to activate (activated abilities only).
    pub essence_cost: u8,
}

/// A group of effects that fire when a condition is met.
#[derive(Clone, Debug)]
pub struct ConditionalEffectGroup {
    pub condition: Condition,
    pub effects: Vec<EffectDefinition>,
}

/// Token definition as written in card data (keywords by name).
#[derive(Clone, Debug)]
pub struct TokenDef {
    pub name: String,
    pub attack: u8,
    pub health: u8,
    pub keywords: Vec<String>,
    pub abilities: Vec<TokenAbilityDef>,
}

/// Token ability as written in card data.
#[derive(Clone, Debug)]
pub struct TokenAbilityDef {
    pub name: String,
    pub essence_cost: u8,
    pub targeting: TargetingRule,
    pub effects: Vec<TokenEffectDef>,
}

/// Token ability effect as written in card data.
#[derive(Clone, Copy, Debug, PartialEq, Eq, Structural)]
pub enum TokenEffectDef {
    /// Destroy the token itself.
    DestroySelf,
    /// Deal damage to the target.
    Damage { amount: u8 },
}

/// The keyword names of a list of strings, as string views.
pub open spec fn string_views(v: Seq<String>) -> Seq<Seq<char>> {
    v.map_values(|s: String| s@)
}

/// Keyword mask of a list of keyword names.
fn keyword_mask_of(names: &Vec<String>) -> (r: Keywords)
    ensures
        r.0 == keyword_bits_of_names(string_views(names@)),
{
    let mut refs: Vec<&str> = Vec::new();
    let mut i: usize = 0;
    while i < names.len()
        invariant
            i <= names@.len(),
            refs@.map_values(|s: &str| s@) == string_views(names@).subrange(0, i as int),
        decreases names@.len() - i,
    {
        let r = names[i].as_str();
        let ghost prev = refs@;
        assert(prev.map_values(|s: &str| s@).len() == prev.len());
        assert(prev.len() == i);
        refs.push(r);
        proof {
            assert(r@ == names@[i as int]@);
            assert(refs@ == prev.push(r));
            assert(refs@.map_values(|s: &str| s@)[i as int] == refs@[i as int]@);
            assert(refs@[i as int] == r);
            assert(string_views(names@)[i as int] == names@[i as int]@);
            assert(string_views(names@).subrange(0, i + 1)[i as int] == string_views(names@)[i as int]);
            assert(refs@.map_values(|s: &str| s@) =~= string_views(names@).subrange(0, i + 1));
        }
        i = i + 1;
    }
    proof {
        assert(string_views(names@).subrange(0, names@.len() as int) =~= string_views(names@));
    }
    Keywords::from_names(refs.as_slice())
}

impl TokenEffectDef {
    /// The runtime token effect.
    pub open spec fn spec_to_token_effect(self) -> TokenEffect {
        match self {
            TokenEffectDef::DestroySelf => TokenEffect::DestroySelf,
            TokenEffectDef::Damage { amount } => TokenEffect::Damage { amount },
        }
    }

    /// Convert to the runtime token effect.
    pub fn to_token_effect(&self) -> (r: TokenEffect)
        ensures
            r == self.spec_to_token_effect(),
    {
        match self {
            TokenEffectDef::DestroySelf => TokenEffect::DestroySelf,
            TokenEffectDef::Damage { amount } => TokenEffect::Damage { amount: *amount },
        }
    }
}

impl TokenAbilityDef {
    /// Whether `a` is the runtime form of this ability.
    pub open spec fn converts_to(&self, a: TokenAbility) -> bool {
        &&& a.name@ == self.name@
        &&& a.essence_cost == self.essence_cost
        &&& a.targeting == self.targeting
        &&& a.effects@ == self.effects@.map_values(|e: TokenEffectDef| e.spec_to_token_effect())
    }

    /// Convert to the runtime token ability.
    pub fn to_token_ability(&self) -> (r: TokenAbility)
        ensures
            self.converts_to(r),
    {
        let mut effects: Vec<TokenEffect> = Vec::new();
        let mut i: usize = 0;
        while i < self.effects.len()
            invariant
                i <= self.effects@.len(),
                effects@ == self.effects@.subrange(0, i as int).map_values(|e: TokenEffectDef| e.spec_to_token_effect()),
            decreases self.effects@.len() - i,
        {
            effects.push(self.effects[i].to_token_effect());
            proof {
                assert(effects@ =~= self.effects@.subrange(0, i + 1).map_values(|e: TokenEffectDef| e.spec_to_token_effect()));
            }
            i = i + 1;
        }
        proof {
            assert(self.effects@.subrange(0, self.effects@.len() as int) =~= self.effects@);
        }
        TokenAbility {
            name: self.name.clone(),
            essence_cost: self.essence_cost,
            targeting: self.targeting,
            effects,
        }
    }
}

impl TokenDef {
    /// Whether `t` is the runtime form of this token.
    pub open spec fn converts_to(&self, t: TokenDefinition) -> bool {
        &&& t.name@ == self.name@
        &&& t.attack == self.attack
        &&& t.health == self.health
        &&& t.keywords == keyword_bits_of_names(string_views(self.keywords@))
        &&& t.abilities@.len() == self.abilities@.len()
        &&& forall|j: int| 0 <= j < self.abilities@.len() ==> (#[trigger] self.abilities@[j]).converts_to(t.abilities@[j])
    }

    /// Convert to a runtime token definition, keywords turned into a mask.
    pub fn to_token_definition(&self) -> (r: TokenDefinition)
        ensures
            self.converts_to(r),
    {
        let keywords = keyword_mask_of(&self.keywords);
        let mut abilities: Vec<TokenAbility> = Vec::new();
        let mut i: usize = 0;
        while i < self.abilities.len()
            invariant
                i <= self.abilities@.len(),
                abilities@.len() == i,
                forall|j: int| 0 <= j < i ==> (#[trigger] self.abilities@[j]).converts_to(abilities@[j]),
            decreases self.abilities@.len() - i,
        {
            abilities.push(self.abilities[i].to_token_ability());
            i = i + 1;
        }
        TokenDefinition {
            name: self.name.clone(),
            attack: self.attack,
            health: self.health,
            keywords: keywords.0,
            abilities,
        }
    }
}

/// Definition of an effect in card data.
#[derive(Clone, Debug)]
pub enum EffectDefinition {
    Damage { amount: u8, filter: Option<CreatureFilter> },
    Heal { amount: u8, filter: Option<CreatureFilter> },
    Draw { count: u8 },
    BuffStats { attack: i8, health: i8, filter: Option<CreatureFilter> },
    Destroy { filter: Option<CreatureFilter> },
    GrantKeyword { keyword: String, filter: Option<CreatureFilter> },
    RemoveKeyword { keyword: String, filter: Option<CreatureFilter> },
    Silence { filter: Option<CreatureFilter> },
    GainEssence { amount: u8 },
    RefreshCreature,
    Bounce { filter: Option<CreatureFilter> },
    /// Summon a token creature.
    SummonToken { token: TokenDef },
    /// Turn the target into a token.
    Transform { into: TokenDef },
    /// Copy the target creature.
    Copy,
}

/// A passive effect of a support.
#[derive(Clone, Debug)]
pub struct PassiveEffectDefinition {
    pub modifier: PassiveModifier,
}

/// What a support's passive does to friendly creatures.
#[derive(Clone, Debug)]
pub enum PassiveModifier {
    AttackBonus(i8),
    HealthBonus(i8),
    GrantKeyword(String),
}

/// Card type with type-specific data.
#[derive(Clone, Debug)]
pub enum CardType {
    Creature {
        attack: u8,
        health: u8,
        keywords: Vec<String>,
        abilities: Vec<AbilityDefinition>,
    },
    Spell {
        targeting: TargetingRule,
        effects: Vec<EffectDefinition>,
        conditional_effects: Vec<ConditionalEffectGroup>,
    },
    Support {
        durability: u8,
        passive_effects: Vec<PassiveEffectDefinition>,
        triggered_effects: Vec<AbilityDefinition>,
    },
}

// =============================================================================
// COMMANDER TYPES
// =============================================================================

/// Faction of commanders, cards and decks.
#[derive(Clone, Copy, Debug, PartialEq, Eq, Hash, Structural)]
pub enum Faction {
    Argentum,
    Symbiote,
    Obsidion,
    Neutral,
}

impl Faction {
    /// Lower-case tag of the faction.
    pub fn as_tag(&self) -> (r: &'static str)
        ensures
            r@ == (match self {
                Faction::Argentum => "argentum"@,
                Faction::Symbiote => "symbiote"@,
                Faction::Obsidion => "obsidion"@,
                Faction::Neutral => "neutral"@,
            }),
    {
        match self {
            Faction::Argentum => "argentum",
            Faction::Symbiote => "symbiote",
            Faction::Obsidion => "obsidion",
            Faction::Neutral => "neutral",
        }
    }

    /// Capitalised display name of the faction.
    pub fn display_name(&self) -> (r: &'static str)
        ensures
            r@ == (match self {
                Faction::Argentum => "Argentum"@,
                Faction::Symbiote => "Symbiote"@,
                Faction::Obsidion => "Obsidion"@,
                Faction::Neutral => "Neutral"@,
            }),
    {
        match self {
            Faction::Argentum => "Argentum",
            Faction::Symbiote => "Symbiote",
            Faction::Obsidion => "Obsidion",
            Faction::Neutral => "Neutral",
        }
    }
}

/// Effect of a commander's passive ability.
#[derive(Clone, Debug)]
pub enum CommanderPassiveEffect {
    /// Grant a keyword to all friendly creatures.
    GrantKeyword { keyword: String },
    /// Buff stats of all friendly creatures.
    BuffStats { attack: i8, health: i8 },
    /// Grant a keyword and buff stats.
    GrantKeywordAndBuff { keyword: String, attack: i8, health: i8 },
    /// Buff stats only of creatures that have a keyword.
    BuffStatsIfKeyword { required_keyword: String, attack: i8, health: i8 },
    /// Grant a keyword only to creatures that have another keyword.
    GrantKeywordIfKeyword { required_keyword: String, granted_keyword: String },
}

/// A commander's always-active ability.
#[derive(Clone, Debug)]
pub struct CommanderPassiveAbility {
    pub description: String,
    pub effect: CommanderPassiveEffect,
}

/// Condition on the creature that fires a commander trigger.
#[derive(Clone, Debug)]
pub struct CommanderTriggerCondition {
    /// The creature must have this keyword.
    pub has_keyword: Option<String>,
}

/// When a commander's triggered ability fires.
#[derive(Clone, Copy, Debug, PartialEq, Eq, Structural)]
pub enum CommanderTrigger {
    StartOfTurn,
    OnCreaturePlayed,
    OnAllyDeath,
    OnEnemyDeath,
    OnAttack,
    OnAnyDeath,
    OnKill,
}

/// A commander's triggered ability.
#[derive(Clone, Debug)]
pub struct CommanderTriggeredAbility {
    pub trigger: CommanderTrigger,
    pub description: String,
    pub condition: Option<CommanderTriggerCondition>,
    pub effects: Vec<EffectDefinition>,
}

/// A commander's ability: passive or triggered.
#[derive(Clone, Debug)]
pub enum CommanderAbility {
    Passive { passive_ability: CommanderPassiveAbility },
    Triggered { triggered_ability: CommanderTriggeredAbility },
}

impl CommanderAbility {
    /// The passive ability, if this is one.
    pub fn passive(&self) -> (r: Option<&CommanderPassiveAbility>)
        ensures
            match self {
                CommanderAbility::Passive { passive_ability } => r == Some(passive_ability),
                CommanderAbility::Triggered { .. } => r is None,
            },
    {
        match self {
            CommanderAbility::Passive { passive_ability } => Some(passive_ability),
            CommanderAbility::Triggered { .. } => None,
        }
    }

    /// The triggered ability, if this is one.
    pub fn triggered(&self) -> (r: Option<&CommanderTriggeredAbility>)
        ensures
            match self {
                CommanderAbility::Triggered { triggered_ability } => r == Some(triggered_ability),
                CommanderAbility::Passive { .. } => r is None,
            },
    {
        match self {
            CommanderAbility::Triggered { triggered_ability } => Some(triggered_ability),
            CommanderAbility::Passive { .. } => None,
        }
    }

    /// Whether this is a passive ability.
    pub fn is_passive(&self) -> (r: bool)
        ensures
            r == (self is Passive),
    {
        match self {
            CommanderAbility::Passive { .. } => true,
            _ => false,
        }
    }

    /// Whether this is a triggered ability.
    pub fn is_triggered(&self) -> (r: bool)
        ensures
            r == (self is Triggered),
    {
        match self {
            CommanderAbility::Triggered { .. } => true,
            _ => false,
        }
    }

    /// The ability's description.
    pub fn description(&self) -> (r: String)
        ensures
            r == (match self {
                CommanderAbility::Passive { passive_ability } => passive_ability.description,
                CommanderAbility::Triggered { triggered_ability } => triggered_ability.description,
            }),
    {
        match self {
            CommanderAbility::Passive { passive_ability } => passive_ability.description.clone(),
            CommanderAbility::Triggered { triggered_ability } => triggered_ability.description.clone(),
        }
    }
}

/// Complete definition of a commander.
#[derive(Clone, Debug)]
pub struct CommanderDefinition {
    pub id: u16,
    pub name: String,
    pub faction: Faction,
    pub rarity: Rarity,
    pub ability: CommanderAbility,
    pub flavor: Option<String>,
}

impl CommanderDefinition {
    /// The passive ability, if the commander has one.
    pub fn passive_ability(&self) -> (r: Option<&CommanderPassiveAbility>)
        ensures
            match self.ability {
                CommanderAbility::Passive { passive_ability } => r == Some(&passive_ability),
                CommanderAbility::Triggered { .. } => r is None,
            },
    {
        self.ability.passive()
    }

    /// The triggered ability, if the commander has one.
    pub fn triggered_ability(&self) -> (r: Option<&CommanderTriggeredAbility>)
        ensures
            match self.ability {
                CommanderAbility::Triggered { triggered_ability } => r == Some(&triggered_ability),
                CommanderAbility::Passive { .. } => r is None,
            },
    {
        self.ability.triggered()
    }

    /// Whether the commander has a passive ability.
    pub fn has_passive(&self) -> (r: bool)
        ensures
            r == (self.ability is Passive),
    {
        self.ability.is_passive()
    }

    /// Whether the commander has a triggered ability.
    pub fn has_triggered(&self) -> (r: bool)
        ensures
            r == (self.ability is Triggered),
    {
        self.ability.is_triggered()
    }
}

/// A set of commanders as stored in one data file.
#[derive(Clone, Debug)]
pub struct CommanderSet {
    pub commanders: Vec<CommanderDefinition>,
}

/// Complete definition of a card.
#[derive(Clone, Debug)]
pub struct CardDefinition {
    pub id: u16,
    pub name: String,
    pub cost: u8,
    pub card_type: CardType,
    pub rarity: Rarity,
    pub tags: Vec<String>,
}

impl CardDefinition {
    /// Keyword mask of a creature card (empty for other cards).
    pub open spec fn spec_keywords(&self) -> u16 {
        match self.card_type {
            CardType::Creature { keywords, .. } => keyword_bits_of_names(string_views(keywords@)),
            _ => 0,
        }
    }

    /// Keywords of a creature card, parsed from its keyword names.
    pub fn keywords(&self) -> (r: Keywords)
        ensures
            r.0 == self.spec_keywords(),
    {
        match &self.card_type {
            CardType::Creature { keywords, .. } => keyword_mask_of(keywords),
            _ => Keywords::none(),
        }
    }

    /// Attack of a creature card.
    pub fn attack(&self) -> (r: Option<u8>)
        ensures
            r == (match self.card_type { CardType::Creature { attack, .. } => Some(attack), _ => None }),
    {
        match &self.card_type {
            CardType::Creature { attack, .. } => Some(*attack),
            _ => None,
        }
    }

    /// Health of a creature card.
    pub fn health(&self) -> (r: Option<u8>)
        ensures
            r == (match self.card_type { CardType::Creature { health, .. } => Some(health), _ => None }),
    {
        match &self.card_type {
            CardType::Creature { health, .. } => Some(*health),
            _ => None,
        }
    }

    /// Durability of a support card.
    pub fn durability(&self) -> (r: Option<u8>)
        ensures
            r == (match self.card_type { CardType::Support { durability, .. } => Some(durability), _ => None }),
    {
        match &self.card_type {
            CardType::Support { durability, .. } => Some(*durability),
            _ => None,
        }
    }

    /// Whether this is a creature card.
    pub fn is_creature(&self) -> (r: bool)
        ensures
            r == (self.card_type is Creature),
    {
        match self.card_type {
            CardType::Creature { .. } => true,
            _ => false,
        }
    }

    /// Whether this is a spell card.
    pub fn is_spell(&self) -> (r: bool)
        ensures
            r == (self.card_type is Spell),
    {
        match self.card_type {
            CardType::Spell { .. } => true,
            _ => false,
        }
    }

    /// Whether this is a support card.
    pub fn is_support(&self) -> (r: bool)
        ensures
            r == (self.card_type is Support),
    {
        match self.card_type {
            CardType::Support { .. } => true,
            _ => false,
        }
    }

    /// Targeting rule of a spell.
    pub fn spell_targeting(&self) -> (r: Option<&TargetingRule>)
        ensures
            match self.card_type {
                CardType::Spell { targeting, .. } => r == Some(&targeting),
                _ => r is None,
            },
    {
        match &self.card_type {
            CardType::Spell { targeting, .. } => Some(targeting),
            _ => None,
        }
    }

    /// Effects of a spell.
    pub fn spell_effects(&self) -> (r: Option<&[EffectDefinition]>)
        ensures
            match self.card_type {
                CardType::Spell { effects, .. } => r matches Some(s) && s@ == effects@,
                _ => r is None,
            },
    {
        match &self.card_type {
            CardType::Spell { effects, .. } => Some(effects.as_slice()),
            _ => None,
        }
    }

    /// Abilities of a creature.
    pub fn creature_abilities(&self) -> (r: Option<&[AbilityDefinition]>)
        ensures
            match self.card_type {
                CardType::Creature { abilities, .. } => r matches Some(s) && s@ == abilities@,
                _ => r is None,
            },
    {
        match &self.card_type {
            CardType::Creature { abilities, .. } => Some(abilities.as_slice()),
            _ => None,
        }
    }

    /// Passive effects of a support.
    pub fn support_passives(&self) -> (r: Option<&[PassiveEffectDefinition]>)
        ensures
            match self.card_type {
                CardType::Support { passive_effects, .. } => r matches Some(s) && s@ == passive_effects@,
                _ => r is None,
            },
    {
        match &self.card_type {
            CardType::Support { passive_effects, .. } => Some(passive_effects.as_slice()),
            _ => None,
        }
    }
}

/// A named set of cards as stored in one data file.
#[derive(Clone, Debug)]
pub struct CardSet {
    pub name: String,
    pub cards: Vec<CardDefinition>,
}

// =============================================================================
// CARD DATABASE
// =============================================================================

/// Position of the last occurrence of `id` in `ids`, or -1.
pub open spec fn last_index_of(ids: Seq<u16>, id: int) -> int
    decreases ids.len(),
{
    if ids.len() == 0 {
        -1
    } else if ids.last() == id {
        ids.len() - 1
    } else {
        last_index_of(ids.drop_last(), id)
    }
}

/// The last occurrence of an id is in range and holds the id; with none,
/// no position holds it.
pub proof fn lemma_last_index_of(ids: Seq<u16>, id: int)
    ensures
        -1 <= last_index_of(ids, id) < ids.len(),
        last_index_of(ids, id) >= 0 ==> ids[last_index_of(ids, id)] == id,
        last_index_of(ids, id) >= 0 ==> forall|j: int| last_index_of(ids, id) < j < ids.len() ==> ids[j] != id,
        last_index_of(ids, id) == -1 ==> forall|j: int| 0 <= j < ids.len() ==> ids[j] != id,
    decreases ids.len(),
{
    if ids.len() > 0 {
        lemma_last_index_of(ids.drop_last(), id);
        if ids.last() != id {
            assert forall|j: int| 0 <= j < ids.len() - 1 implies ids[j] == ids.drop_last()[j] by {}
        }
    }
}

/// Whether `table` maps each id below its length to the last position of
/// that id in `ids`, and every id is below its length.
pub open spec fn index_table_ok(table: Seq<Option<usize>>, ids: Seq<u16>) -> bool {
    &&& forall|id: int| 0 <= id < table.len() ==> #[trigger] table[id] == (if last_index_of(ids, id) >= 0 {
            Some(last_index_of(ids, id) as usize)
        } else {
            None::<usize>
        })
    &&& forall|j: int| 0 <= j < ids.len() ==> (#[trigger] ids[j]) < table.len()
}

/// Ids of a list of cards.
pub open spec fn card_ids_of(cards: Seq<CardDefinition>) -> Seq<u16> {
    cards.map_values(|c: CardDefinition| c.id)
}

/// Ids of a list of commanders.
pub open spec fn commander_ids_of(cs: Seq<CommanderDefinition>) -> Seq<u16> {
    cs.map_values(|c: CommanderDefinition| c.id)
}

/// The card with the given id (the last one, when the id repeats).
pub open spec fn lookup_card(cards: Seq<CardDefinition>, id: CardId) -> Option<CardDefinition> {
    let k = last_index_of(card_ids_of(cards), id.0 as int);
    if k >= 0 { Some(cards[k]) } else { None }
}

/// Law: in a list of cards with distinct ids, looking up the id of each
/// card finds that card, and an id no card has finds nothing.
pub proof fn lemma_lookup_distinct(cards: Seq<CardDefinition>, id: CardId)
    requires
        forall|i: int, j: int| 0 <= i < j < cards.len() ==> (#[trigger] cards[i]).id != (#[trigger] cards[j]).id,
    ensures
        forall|i: int| 0 <= i < cards.len() ==> lookup_card(cards, CardId(#[trigger] cards[i].id)) == Some(cards[i]),
        (forall|i: int| 0 <= i < cards.len() ==> #[trigger] cards[i].id != id.0) ==> lookup_card(cards, id) is None,
{
    assert forall|i: int| 0 <= i < cards.len() implies lookup_card(cards, CardId(#[trigger] cards[i].id)) == Some(cards[i]) by {
        let ids = card_ids_of(cards);
        lemma_last_index_of(ids, cards[i].id as int);
        let k = last_index_of(ids, cards[i].id as int);
        assert(ids[i] == cards[i].id);
        if k != i {
            assert(k >= 0);
            assert(ids[k] == cards[k].id);
            if k < i {
                assert(cards[k].id != cards[i].id);
            } else {
                assert(cards[i].id != cards[k].id);
            }
        }
    }
    lemma_last_index_of(card_ids_of(cards), id.0 as int);
    if (forall|i: int| 0 <= i < cards.len() ==> #[trigger] cards[i].id != id.0) {
        let ids = card_ids_of(cards);
        let k = last_index_of(ids, id.0 as int);
        if k >= 0 {
            assert(ids[k] == cards[k].id);
        }
    }
}

/// The commander with the given id (the last one, when the id repeats).
pub open spec fn lookup_commander(cs: Seq<CommanderDefinition>, id: CardId) -> Option<CommanderDefinition> {
    let k = last_index_of(commander_ids_of(cs), id.0 as int);
    if k >= 0 { Some(cs[k]) } else { None }
}

/// Build the id -> position table of a list of ids.
fn build_index(ids: &Vec<u16>) -> (r: Vec<Option<usize>>)
    ensures
        index_table_ok(r@, ids@),
{
    let mut max_id: u16 = 0;
    let mut i: usize = 0;
    while i < ids.len()
        invariant
            i <= ids@.len(),
            forall|j: int| 0 <= j < i ==> ids@[j] <= max_id,
        decreases ids@.len() - i,
    {
        if ids[i] > max_id {
            max_id = ids[i];
        }
        i = i + 1;
    }
    let n: usize = max_id as usize + 1;
    let mut table: Vec<Option<usize>> = vec![None; n];
    let mut k: usize = 0;
    while k < ids.len()
        invariant
            k <= ids@.len(),
            table@.len() == n,
            n == max_id + 1,
            forall|j: int| 0 <= j < ids@.len() ==> ids@[j] <= max_id,
            forall|id: int| 0 <= id < n ==> #[trigger] table@[id] == (if last_index_of(ids@.subrange(0, k as int), id) >= 0 {
                Some(last_index_of(ids@.subrange(0, k as int), id) as usize)
            } else {
                None::<usize>
            }),
        decreases ids@.len() - k,
    {
        let id = ids[k];
        table.set(id as usize, Some(k));
        proof {
            let pre = ids@.subrange(0, k as int);
            let post = ids@.subrange(0, k + 1);
            assert(post.drop_last() =~= pre);
            assert(post.last() == id);
            assert forall|x: int| 0 <= x < n implies #[trigger] table@[x] == (if last_index_of(post, x) >= 0 {
                Some(last_index_of(post, x) as usize)
            } else {
                None::<usize>
            }) by {
                if x == id as int {
                    assert(last_index_of(post, x) == k as int);
                } else {
                    assert(last_index_of(post, x) == last_index_of(pre, x));
                }
            }
        }
        k = k + 1;
    }
    proof {
        assert(ids@.subrange(0, ids@.len() as int) =~= ids@);
    }
    table
}

/// The card database: card and commander definitions with id lookup tables.
#[derive(Debug)]
pub struct CardDatabase {
    cards: Vec<CardDefinition>,
    id_to_index: Vec<Option<usize>>,
    commanders: Vec<CommanderDefinition>,
    commander_to_index: Vec<Option<usize>>,
}

impl CardDatabase {
    /// The lookup tables agree with the definitions.
    #[verifier::type_invariant]
    spec fn inv(self) -> bool {
        &&& index_table_ok(self.id_to_index@, card_ids_of(self.cards@))
        &&& index_table_ok(self.commander_to_index@, commander_ids_of(self.commanders@))
    }

    /// The card definitions, in the order given.
    pub closed spec fn spec_cards(&self) -> Seq<CardDefinition> {
        self.cards@
    }

    /// The commander definitions, in the order given.
    pub closed spec fn spec_commanders(&self) -> Seq<CommanderDefinition> {
        self.commanders@
    }

    /// The card with the given id.
    pub open spec fn spec_get(&self, id: CardId) -> Option<CardDefinition> {
        lookup_card(self.spec_cards(), id)
    }

    /// The commander with the given id.
    pub open spec fn spec_get_commander(&self, id: CardId) -> Option<CommanderDefinition> {
        lookup_commander(self.spec_commanders(), id)
    }

    /// A database of cards without commanders.
    pub fn new(cards: Vec<CardDefinition>) -> (r: CardDatabase)
        ensures
            r.spec_cards() == cards@,
            r.spec_commanders() == Seq::<CommanderDefinition>::empty(),
    {
        Self::new_with_commanders(cards, Vec::new())
    }

    /// A database of cards and commanders.
    pub fn new_with_commanders(cards: Vec<CardDefinition>, commanders: Vec<CommanderDefinition>) -> (r: CardDatabase)
        ensures
            r.spec_cards() == cards@,
            r.spec_commanders() == commanders@,
    {
        let mut card_ids: Vec<u16> = Vec::new();
        let mut i: usize = 0;
        while i < cards.len()
            invariant
                i <= cards@.len(),
                card_ids@ == card_ids_of(cards@).subrange(0, i as int),
            decreases cards@.len() - i,
        {
            card_ids.push(cards[i].id);
            proof { assert(card_ids@ =~= card_ids_of(cards@).subrange(0, i + 1)); }
            i = i + 1;
        }
        proof { assert(card_ids_of(cards@).subrange(0, cards@.len() as int) =~= card_ids_of(cards@)); }
        let mut commander_ids: Vec<u16> = Vec::new();
        let mut j: usize = 0;
        while j < commanders.len()
            invariant
                j <= commanders@.len(),
                commander_ids@ == commander_ids_of(commanders@).subrange(0, j as int),
            decreases commanders@.len() - j,
        {
            commander_ids.push(commanders[j].id);
            proof { assert(commander_ids@ =~= commander_ids_of(commanders@).subrange(0, j + 1)); }
            j = j + 1;
        }
        proof { assert(commander_ids_of(commanders@).subrange(0, commanders@.len() as int) =~= commander_ids_of(commanders@)); }
        let id_to_index = build_index(&card_ids);
        let commander_to_index = build_index(&commander_ids);
        CardDatabase { cards, id_to_index, commanders, commander_to_index }
    }

    /// An empty database.
    pub fn empty() -> (r: CardDatabase)
        ensures
            r.spec_cards() == Seq::<CardDefinition>::empty(),
            r.spec_commanders() == Seq::<CommanderDefinition>::empty(),
    {
        CardDatabase {
            cards: Vec::new(),
            id_to_index: Vec::new(),
            commanders: Vec::new(),
            commander_to_index: Vec::new(),
        }
    }

    /// The card with the given id.
    pub fn get(&self, id: CardId) -> (r: Option<&CardDefinition>)
        ensures
            r is None <==> self.spec_get(id) is None,
            r matches Some(c) ==> self.spec_get(id) == Some(*c),
    {
        proof {
            use_type_invariant(self);
            lemma_last_index_of(card_ids_of(self.cards@), id.0 as int);
        }
        let idx = id.0 as usize;
        let _n = self.cards.len();
        if idx < self.id_to_index.len() {
            match self.id_to_index[idx] {
                Some(i) => {
                    proof {
                        assert(self.id_to_index@[idx as int] == Some(i));
                        let k = last_index_of(card_ids_of(self.cards@), idx as int);
                        assert(card_ids_of(self.cards@).len() == self.cards@.len());
                        assert(k >= 0);
                        assert(k < self.cards@.len());
                        assert((k as usize) as int == k);
                        assert(k == i as int);
                        assert(self.spec_get(id) == Some(self.cards@[k]));
                    }
                    Some(&self.cards[i])
                }
                None => {
                    proof { assert(self.id_to_index@[idx as int] == None::<usize>); }
                    None
                }
            }
        } else {
            proof {
                let ids = card_ids_of(self.cards@);
                let k = last_index_of(ids, id.0 as int);
                if k >= 0 {
                    assert(ids[k] < self.id_to_index@.len());
                }
            }
            None
        }
    }

    /// The commander with the given id.
    pub fn get_commander(&self, id: CardId) -> (r: Option<&CommanderDefinition>)
        ensures
            r is None <==> self.spec_get_commander(id) is None,
            r matches Some(c) ==> self.spec_get_commander(id) == Some(*c),
    {
        proof {
            use_type_invariant(self);
            lemma_last_index_of(commander_ids_of(self.commanders@), id.0 as int);
        }
        let idx = id.0 as usize;
        let _n = self.commanders.len();
        if idx < self.commander_to_index.len() {
            match self.commander_to_index[idx] {
                Some(i) => {
                    proof {
                        assert(self.commander_to_index@[idx as int] == Some(i));
                        let k = last_index_of(commander_ids_of(self.commanders@), idx as int);
                        assert(commander_ids_of(self.commanders@).len() == self.commanders@.len());
                        assert(k >= 0);
                        assert(k < self.commanders@.len());
                        assert((k as usize) as int == k);
                        assert(k == i as int);
                        assert(self.spec_get_commander(id) == Some(self.commanders@[k]));
                    }
                    Some(&self.commanders[i])
                }
                None => {
                    proof { assert(self.commander_to_index@[idx as int] == None::<usize>); }
                    None
                }
            }
        } else {
            proof {
                let ids = commander_ids_of(self.commanders@);
                let k = last_index_of(ids, id.0 as int);
                if k >= 0 {
                    assert(ids[k] < self.commander_to_index@.len());
                }
            }
            None
        }
    }

    /// Number of cards.
    pub fn len(&self) -> (r: usize)
        ensures
            r == self.spec_cards().len(),
    {
        self.cards.len()
    }

    /// Number of commanders.
    pub fn commander_count(&self) -> (r: usize)
        ensures
            r == self.spec_commanders().len(),
    {
        self.commanders.len()
    }

    /// Whether the database holds no cards.
    pub fn is_empty(&self) -> (r: bool)
        ensures
            r == (self.spec_cards().len() == 0),
    {
        self.cards.len() == 0
    }

    /// All cards, in order.
    pub fn iter(&self) -> (r: &[CardDefinition])
        ensures
            r@ == self.spec_cards(),
    {
        self.cards.as_slice()
    }

    /// All commanders, in order.
    pub fn iter_commanders(&self) -> (r: &[CommanderDefinition])
        ensures
            r@ == self.spec_commanders(),
    {
        self.commanders.as_slice()
    }

    /// Ids of all cards, in order.
    pub fn card_ids(&self) -> (r: Vec<CardId>)
        ensures
            r@.len() == self.spec_cards().len(),
            forall|j: int| 0 <= j < r@.len() ==> (#[trigger] r@[j]).0 == self.spec_cards()[j].id,
    {
        let mut out: Vec<CardId> = Vec::new();
        let mut i: usize = 0;
        while i < self.cards.len()
            invariant
                i <= self.cards@.len(),
                out@.len() == i,
                forall|j: int| 0 <= j < i ==> (#[trigger] out@[j]).0 == self.cards@[j].id,
            decreases self.cards@.len() - i,
        {
            out.push(CardId(self.cards[i].id));
            i = i + 1;
        }
        out
    }

    /// Ids of all commanders, in order.
    pub fn commander_ids(&self) -> (r: Vec<CardId>)
        ensures
            r@.len() == self.spec_commanders().len(),
            forall|j: int| 0 <= j < r@.len() ==> (#[trigger] r@[j]).0 == self.spec_commanders()[j].id,
    {
        let mut out: Vec<CardId> = Vec::new();
        let mut i: usize = 0;
        while i < self.commanders.len()
            invariant
                i <= self.commanders@.len(),
                out@.len() == i,
                forall|j: int| 0 <= j < i ==> (#[trigger] out@[j]).0 == self.commanders@[j].id,
            decreases self.commanders@.len() - i,
        {
            out.push(CardId(self.commanders[i].id));
            i = i + 1;
        }
        out
    }

    /// The same cards together with the given commanders.
    pub fn with_commanders(self, commanders: Vec<CommanderDefinition>) -> (r: CardDatabase)
        ensures
            r.spec_cards() == self.spec_cards(),
            r.spec_commanders() == commanders@,
    {
        Self::new_with_commanders(self.cards, commanders)
    }
}

/// Looking up an id finds the last card given with that id, and nothing
/// for an id that no card has.
pub proof fn lemma_lookup_card(cards: Seq<CardDefinition>, id: CardId)
    ensures
        lookup_card(cards, id) is None <==> forall|j: int| 0 <= j < cards.len() ==> cards[j].id != id.0,
        lookup_card(cards, id) matches Some(c) ==> c.id == id.0
            && exists|j: int| 0 <= j < cards.len() && cards[j] == c
                && forall|k: int| j < k < cards.len() ==> cards[k].id != id.0,
{
    let ids = card_ids_of(cards);
    lemma_last_index_of(ids, id.0 as int);
    let k = last_index_of(ids, id.0 as int);
    if k == -1 {
        assert forall|j: int| 0 <= j < cards.len() implies cards[j].id != id.0 by {
            assert(ids[j] == cards[j].id);
        }
    } else {
        assert(ids[k] == cards[k].id);
        assert forall|j: int| k < j < cards.len() implies cards[j].id != id.0 by {
            assert(ids[j] == cards[j].id);
        }
    }
}

} // verus!
