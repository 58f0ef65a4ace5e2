use essence_wars::gamecore::card_validation::{
    check_unique_card_ids, check_unique_commander_ids, validate_card, validate_effect_definition, validate_loaded_cards,
};
use essence_wars::gamecore::cards::{
    AbilityDefinition, CardDefinition, CardType, CommanderAbility, CommanderDefinition, CommanderTrigger,
    CommanderTriggeredAbility, EffectDefinition, Faction, Rarity, TokenDef,
};
use essence_wars::gamecore::effects::{TargetingRule, Trigger};

fn creature(id: u16, attack: u8, health: u8, abilities: Vec<AbilityDefinition>) -> CardDefinition {
    CardDefinition {
        id,
        name: format!("C{}", id),
        cost: 1,
        card_type: CardType::Creature { attack, health, keywords: vec![], abilities },
        rarity: Rarity::Common,
        tags: vec![],
    }
}

fn spell(id: u16, effects: Vec<EffectDefinition>) -> CardDefinition {
    CardDefinition {
        id,
        name: format!("S{}", id),
        cost: 1,
        card_type: CardType::Spell { targeting: TargetingRule::NoTarget, effects, conditional_effects: vec![] },
        rarity: Rarity::Common,
        tags: vec![],
    }
}

fn token(attack: u8, health: u8) -> TokenDef {
    TokenDef { name: "T".to_string(), attack, health, keywords: vec![], abilities: vec![] }
}

fn commander(id: u16) -> CommanderDefinition {
    CommanderDefinition {
        id,
        name: "K".to_string(),
        faction: Faction::Argentum,
        rarity: Rarity::Rare,
        ability: CommanderAbility::Triggered {
            triggered_ability: CommanderTriggeredAbility {
                trigger: CommanderTrigger::OnKill,
                description: String::new(),
                condition: None,
                effects: vec![],
            },
        },
        flavor: None,
    }
}

#[test]
fn creature_base_stats_are_checked() {
    assert!(validate_card(&creature(1, 2, 3, vec![])).is_ok());
    assert_eq!(
        validate_card(&creature(7, 2, 0, vec![])),
        Err("Card 7 'C7' has invalid base health: 0 (must be > 0)".to_string())
    );
    assert_eq!(
        validate_card(&creature(8, 2, 51, vec![])),
        Err("Card 8 'C8' has suspiciously high health: 51 (max 50)".to_string())
    );
    assert_eq!(
        validate_card(&creature(9, 60, 5, vec![])),
        Err("Card 9 'C9' has suspiciously high attack: 60 (max 50)".to_string())
    );
    assert!(validate_card(&creature(10, 50, 50, vec![])).is_ok());
}

#[test]
fn buff_and_token_effects_are_checked() {
    let c = spell(3, vec![]);
    let buff = |a: i8, h: i8| EffectDefinition::BuffStats { attack: a, health: h, filter: None };
    assert!(validate_effect_definition(&c, &buff(20, -20)).is_ok());
    assert_eq!(
        validate_effect_definition(&c, &buff(-21, 0)),
        Err("Card 3 'S3' has extreme attack buff: -21 (abs max 20)".to_string())
    );
    assert_eq!(
        validate_effect_definition(&c, &buff(1, 25)),
        Err("Card 3 'S3' has extreme health buff: 25 (abs max 20)".to_string())
    );
    assert_eq!(
        validate_effect_definition(&c, &EffectDefinition::SummonToken { token: token(1, 0) }),
        Err("Card 3 'S3' has SummonToken effect with invalid health: 0 (must be > 0)".to_string())
    );
    assert_eq!(
        validate_effect_definition(&c, &EffectDefinition::Transform { into: token(51, 5) }),
        Err("Card 3 'S3' has Transform effect with extreme attack: 51 (max 50)".to_string())
    );
    assert!(validate_effect_definition(&c, &EffectDefinition::Copy).is_ok());
}

#[test]
fn the_first_bad_effect_is_reported() {
    let ability = AbilityDefinition {
        trigger: Trigger::OnPlay,
        targeting: TargetingRule::NoTarget,
        effects: vec![
            EffectDefinition::Draw { count: 1 },
            EffectDefinition::BuffStats { attack: 30, health: 0, filter: None },
            EffectDefinition::SummonToken { token: token(0, 0) },
        ],
        conditional_effects: vec![],
        essence_cost: 0,
    };
    assert_eq!(
        validate_card(&creature(4, 1, 1, vec![ability])),
        Err("Card 4 'C4' has extreme attack buff: 30 (abs max 20)".to_string())
    );
}

#[test]
fn duplicate_ids_are_reported() {
    let cards = vec![creature(1, 1, 1, vec![]), creature(2, 1, 1, vec![]), creature(1, 1, 1, vec![])];
    assert_eq!(check_unique_card_ids(&cards), Err("Duplicate card ID: 1".to_string()));
    assert_eq!(validate_loaded_cards(&cards, "dir"), Err("Duplicate card ID: 1".to_string()));
    let cs = vec![commander(5), commander(6), commander(6), commander(5)];
    assert_eq!(check_unique_commander_ids(&cs), Err("Duplicate commander ID: 6".to_string()));
    assert!(check_unique_commander_ids(&vec![commander(5), commander(6)]).is_ok());
}

#[test]
fn loaded_cards_must_not_be_empty() {
    assert_eq!(
        validate_loaded_cards(&vec![], "data/cards"),
        Err("No cards found in directory: data/cards. Expected .yaml or .yml files with card definitions.".to_string())
    );
    let cards = vec![creature(1, 1, 1, vec![]), spell(2, vec![EffectDefinition::Draw { count: 2 }])];
    assert!(validate_loaded_cards(&cards, "data/cards").is_ok());
}
