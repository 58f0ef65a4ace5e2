//! Runtime effects, their targets and sources, and trigger kinds.

use vstd::prelude::*;
use crate::gamecore::types::{CardId, PlayerId, Slot};

verus! {

/// When a triggered ability fires.
#[derive(Clone, Copy, Debug, PartialEq, Eq, Structural)]
pub enum Trigger {
    OnPlay,
    OnDeath,
    OnAttack,
    OnDealDamage,
    OnTakeDamage,
    OnKill,
    OnAllyDeath,
    OnAllyPlayed,
    StartOfTurn,
    EndOfTurn,
    Activated,
}

/// What a spell or ability may target.
#[derive(Clone, Copy, Debug, PartialEq, Eq, Structural)]
pub enum TargetingRule {
    NoTarget,
    TargetAny,
    TargetCreature,
    TargetEnemyCreature,
    TargetAllyCreature,
    TargetPlayer,
    TargetEnemyPlayer,
}

impl TargetingRule {
    /// The default targeting rule: no target.
    pub fn default_rule() -> (r: TargetingRule)
        ensures
            r == TargetingRule::NoTarget,
    {
        TargetingRule::NoTarget
    }
}

/// Restricts area effects to creatures with matching health or keywords.
#[derive(Clone, Copy, Debug, PartialEq, Eq, Structural)]
pub struct CreatureFilter {
    /// Only creatures with at most this much health.
    pub max_health: Option<i8>,
    /// Only creatures with at least this much health.
    pub min_health: Option<i8>,
    /// Only creatures that have all of these keyword bits.
    pub has_keyword: Option<u16>,
    /// Only creatures that have none of these keyword bits.
    pub lacks_keyword: Option<u16>,
}

impl CreatureFilter {
    /// Whether a creature with this health and keyword mask passes the filter.
    pub open spec fn spec_matches(&self, health: i8, keywords: u16) -> bool {
        &&& (self.max_health matches Some(m) ==> health <= m)
        &&& (self.min_health matches Some(m) ==> health >= m)
        &&& (self.has_keyword matches Some(k) ==> keywords & k == k)
        &&& (self.lacks_keyword matches Some(k) ==> keywords & k == 0)
    }

    /// Whether a creature with this health and keyword mask passes the filter.
    #[verifier::when_used_as_spec(spec_matches)]
    pub fn matches(&self, health: i8, keywords: u16) -> (r: bool)
        ensures
            r == self.spec_matches(health, keywords),
    {
        let max_ok = match self.max_health {
            Some(m) => health <= m,
            None => true,
        };
        let min_ok = match self.min_health {
            Some(m) => health >= m,
            None => true,
        };
        let has_ok = match self.has_keyword {
            Some(k) => keywords & k == k,
            None => true,
        };
        let lacks_ok = match self.lacks_keyword {
            Some(k) => keywords & k == 0,
            None => true,
        };
        max_ok && min_ok && has_ok && lacks_ok
    }
}

/// Whether an optional filter admits a creature (no filter admits all).
pub open spec fn filter_admits(filter: Option<CreatureFilter>, health: i8, keywords: u16) -> bool {
    match filter {
        Some(f) => f.spec_matches(health, keywords),
        None => true,
    }
}

/// Whether an optional filter admits a creature (no filter admits all).
pub fn optional_filter_admits(filter: Option<&CreatureFilter>, health: i8, keywords: u16) -> (r: bool)
    ensures
        r == filter_admits(match filter { Some(f) => Some(*f), None => None }, health, keywords),
{
    match filter {
        Some(f) => f.matches(health, keywords),
        None => true,
    }
}

/// Condition checked after primary effects resolve, for bonus effects.
#[derive(Clone, Copy, Debug, PartialEq, Eq, Structural)]
pub enum Condition {
    /// Some target of the primary effects died.
    TargetDied,
    /// No target of the primary effects died.
    TargetSurvived,
}

/// What happened while resolving a batch of effects.
#[derive(Clone, Copy, Debug, PartialEq, Eq, Default, Structural)]
pub struct EffectResult {
    /// Whether some creature was marked for death.
    pub target_died: bool,
}

impl EffectResult {
    /// Nothing happened yet.
    pub fn none() -> (r: EffectResult)
        ensures
            r.target_died == false,
    {
        EffectResult { target_died: false }
    }

    /// Whether this result meets a condition.
    pub open spec fn spec_check(&self, condition: Condition) -> bool {
        match condition {
            Condition::TargetDied => self.target_died,
            Condition::TargetSurvived => !self.target_died,
        }
    }

    /// Whether this result meets a condition.
    pub fn check(&self, condition: &Condition) -> (r: bool)
        ensures
            r == self.spec_check(*condition),
    {
        match condition {
            Condition::TargetDied => self.target_died,
            Condition::TargetSurvived => !self.target_died,
        }
    }
}

/// Where an effect lands.
#[derive(Clone, Copy, Debug, PartialEq, Eq, Structural)]
pub enum EffectTarget {
    Creature { owner: PlayerId, slot: Slot },
    Player(PlayerId),
    AllCreatures,
    AllAllyCreatures(PlayerId),
    AllEnemyCreatures(PlayerId),
    TriggerSource,
    NoTarget,
}

/// Where an effect came from.
#[derive(Clone, Copy, Debug, PartialEq, Eq, Structural)]
pub enum EffectSource {
    Card(CardId),
    Creature { owner: PlayerId, slot: Slot },
    Support { owner: PlayerId, slot: Slot },
    Commander { owner: PlayerId },
    System,
}

/// One step of a token's activated ability.
#[derive(Clone, Copy, Debug, PartialEq, Eq, Structural)]
pub enum TokenEffect {
    /// Destroy the token itself.
    DestroySelf,
    /// Deal damage to the chosen target.
    Damage { amount: u8 },
    /// Change the chosen target's stats (usually negative).
    Debuff { attack: i8, health: i8 },
    /// Heal the ability owner's commander (capped at starting life).
    HealSelf { amount: u8 },
}

/// An activated ability carried by a token creature.
#[derive(Clone, Debug)]
pub struct TokenAbility {
    pub name: String,
    pub essence_cost: u8,
    pub targeting: TargetingRule,
    pub effects: Vec<TokenEffect>,
}

/// A creature created by an effect rather than played from hand.
#[derive(Clone, Debug)]
pub struct TokenDefinition {
    pub name: String,
    pub attack: u8,
    pub health: u8,
    pub keywords: u16,
    pub abilities: Vec<TokenAbility>,
}

/// Copy a list of token effects.
pub fn duplicate_token_effects(v: &Vec<TokenEffect>) -> (r: Vec<TokenEffect>)
    ensures
        r@ == v@,
{
    let mut out: Vec<TokenEffect> = Vec::new();
    let mut i: usize = 0;
    while i < v.len()
        invariant
            i <= v@.len(),
            out@ == v@.subrange(0, i as int),
        decreases v@.len() - i,
    {
        out.push(v[i]);
        proof {
            assert(out@ =~= v@.subrange(0, i + 1));
        }
        i = i + 1;
    }
    proof {
        assert(v@.subrange(0, v@.len() as int) =~= v@);
    }
    out
}

impl TokenAbility {
    /// Two abilities with the same name, cost, targeting and effects.
    pub open spec fn same(&self, other: &TokenAbility) -> bool {
        &&& self.name@ == other.name@
        &&& self.essence_cost == other.essence_cost
        &&& self.targeting == other.targeting
        &&& self.effects@ == other.effects@
    }

    /// A copy of this ability.
    pub fn duplicate(&self) -> (r: TokenAbility)
        ensures
            r.same(self),
    {
        TokenAbility {
            name: self.name.clone(),
            essence_cost: self.essence_cost,
            targeting: self.targeting,
            effects: duplicate_token_effects(&self.effects),
        }
    }
}

/// Two lists of abilities that agree position by position.
pub open spec fn same_abilities(a: Seq<TokenAbility>, b: Seq<TokenAbility>) -> bool {
    &&& a.len() == b.len()
    &&& forall|j: int| 0 <= j < a.len() ==> (#[trigger] a[j]).same(&b[j])
}

/// Copy a list of token abilities.
pub fn duplicate_token_abilities(v: &Vec<TokenAbility>) -> (r: Vec<TokenAbility>)
    ensures
        same_abilities(r@, v@),
{
    let mut out: Vec<TokenAbility> = Vec::new();
    let mut i: usize = 0;
    while i < v.len()
        invariant
            i <= v@.len(),
            out@.len() == i,
            forall|j: int| 0 <= j < i ==> (#[trigger] out@[j]).same(&v@[j]),
        decreases v@.len() - i,
    {
        out.push(v[i].duplicate());
        i = i + 1;
    }
    out
}

impl TokenDefinition {
    /// Two token definitions that agree field by field.
    pub open spec fn same(&self, other: &TokenDefinition) -> bool {
        &&& self.name@ == other.name@
        &&& self.attack == other.attack
        &&& self.health == other.health
        &&& self.keywords == other.keywords
        &&& same_abilities(self.abilities@, other.abilities@)
    }

    /// A copy of this token definition.
    pub fn duplicate(&self) -> (r: TokenDefinition)
        ensures
            r.same(self),
    {
        TokenDefinition {
            name: self.name.clone(),
            attack: self.attack,
            health: self.health,
            keywords: self.keywords,
            abilities: duplicate_token_abilities(&self.abilities),
        }
    }
}

/// A game effect waiting in, or being resolved from, the effect queue.
#[derive(Clone, Debug)]
#[allow(inconsistent_fields)]
pub enum Effect {
    Damage { target: EffectTarget, amount: u8, filter: Option<CreatureFilter> },
    Heal { target: EffectTarget, amount: u8, filter: Option<CreatureFilter> },
    Draw { player: PlayerId, count: u8 },
    BuffStats { target: EffectTarget, attack: i8, health: i8, filter: Option<CreatureFilter> },
    SetStats { target: EffectTarget, attack: u8, health: u8 },
    Destroy { target: EffectTarget, filter: Option<CreatureFilter> },
    Summon { owner: PlayerId, card_id: CardId, slot: Option<Slot> },
    SummonToken { owner: PlayerId, token: TokenDefinition, slot: Option<Slot> },
    Transform { target: EffectTarget, into: TokenDefinition },
    Copy { target: EffectTarget, owner: PlayerId },
    GrantKeyword { target: EffectTarget, keyword: u16, filter: Option<CreatureFilter> },
    RemoveKeyword { target: EffectTarget, keyword: u16, filter: Option<CreatureFilter> },
    Silence { target: EffectTarget, filter: Option<CreatureFilter> },
    GainEssence { player: PlayerId, amount: u8 },
    RefreshCreature { target: EffectTarget },
    Bounce { target: EffectTarget, filter: Option<CreatureFilter> },
    DestroySelf { owner: PlayerId, slot: Slot },
}

impl Effect {
    /// Two effects of the same kind with the same parameters.
    pub open spec fn same(&self, other: &Effect) -> bool {
        match (self, other) {
            (Effect::SummonToken { owner: o1, token: t1, slot: s1 },
             Effect::SummonToken { owner: o2, token: t2, slot: s2 }) => o1 == o2 && s1 == s2 && t1.same(t2),
            (Effect::Transform { target: a, into: t1 }, Effect::Transform { target: b, into: t2 }) =>
                a == b && t1.same(t2),
            (Effect::SummonToken { .. }, _) => false,
            (Effect::Transform { .. }, _) => false,
            _ => self == other,
        }
    }

    /// A copy of this effect.
    pub fn duplicate(&self) -> (r: Effect)
        ensures
            r.same(self),
    {
        match self {
            Effect::Damage { target, amount, filter } => Effect::Damage { target: *target, amount: *amount, filter: *filter },
            Effect::Heal { target, amount, filter } => Effect::Heal { target: *target, amount: *amount, filter: *filter },
            Effect::Draw { player, count } => Effect::Draw { player: *player, count: *count },
            Effect::BuffStats { target, attack, health, filter } => Effect::BuffStats { target: *target, attack: *attack, health: *health, filter: *filter },
            Effect::SetStats { target, attack, health } => Effect::SetStats { target: *target, attack: *attack, health: *health },
            Effect::Destroy { target, filter } => Effect::Destroy { target: *target, filter: *filter },
            Effect::Summon { owner, card_id, slot } => Effect::Summon { owner: *owner, card_id: *card_id, slot: *slot },
            Effect::SummonToken { owner, token, slot } => Effect::SummonToken { owner: *owner, token: token.duplicate(), slot: *slot },
            Effect::Transform { target, into } => Effect::Transform { target: *target, into: into.duplicate() },
            Effect::Copy { target, owner } => Effect::Copy { target: *target, owner: *owner },
            Effect::GrantKeyword { target, keyword, filter } => Effect::GrantKeyword { target: *target, keyword: *keyword, filter: *filter },
            Effect::RemoveKeyword { target, keyword, filter } => Effect::RemoveKeyword { target: *target, keyword: *keyword, filter: *filter },
            Effect::Silence { target, filter } => Effect::Silence { target: *target, filter: *filter },
            Effect::GainEssence { player, amount } => Effect::GainEssence { player: *player, amount: *amount },
            Effect::RefreshCreature { target } => Effect::RefreshCreature { target: *target },
            Effect::Bounce { target, filter } => Effect::Bounce { target: *target, filter: *filter },
            Effect::DestroySelf { owner, slot } => Effect::DestroySelf { owner: *owner, slot: *slot },
        }
    }
}

/// An effect together with where it came from.
#[derive(Debug)]
pub struct PendingEffect {
    pub effect: Effect,
    pub source: EffectSource,
}

impl PendingEffect {
    /// Pair an effect with its source.
    pub fn new(effect: Effect, source: EffectSource) -> (r: PendingEffect)
        ensures
            r.effect == effect,
            r.source == source,
    {
        PendingEffect { effect, source }
    }
}

} // verus!
