use essence_wars::bots::factory::{archetype_weights_file, lookup_step, weight_lookups, BotType, LookupStep, WeightLookup, WeightResolutionError};
use essence_wars::decks::Faction;
use std::path::PathBuf;

#[test]
fn test_bot_type_from_str() {
    assert_eq!("random".parse::<BotType>().unwrap(), BotType::Random);
    assert_eq!("Random".parse::<BotType>().unwrap(), BotType::Random);
    assert_eq!("RANDOM".parse::<BotType>().unwrap(), BotType::Random);
    assert_eq!("greedy".parse::<BotType>().unwrap(), BotType::Greedy);
    assert_eq!("mcts".parse::<BotType>().unwrap(), BotType::Mcts);
    assert_eq!("alphabeta".parse::<BotType>().unwrap(), BotType::AlphaBeta);
    assert_eq!("alpha-beta".parse::<BotType>().unwrap(), BotType::AlphaBeta);
    assert_eq!("ab".parse::<BotType>().unwrap(), BotType::AlphaBeta);
    assert_eq!("agent-argentum".parse::<BotType>().unwrap(), BotType::AgentSpecialist(Faction::Argentum));
    assert_eq!("agent-symbiote".parse::<BotType>().unwrap(), BotType::AgentSpecialist(Faction::Symbiote));
    assert_eq!("agent-obsidion".parse::<BotType>().unwrap(), BotType::AgentSpecialist(Faction::Obsidion));
    assert_eq!("agent-generalist".parse::<BotType>().unwrap(), BotType::AgentGeneralist);
    assert!("invalid".parse::<BotType>().is_err());
}

#[test]
fn test_bot_type_name() {
    assert_eq!(BotType::Random.name(), "RandomBot");
    assert_eq!(BotType::Greedy.name(), "GreedyBot");
    assert_eq!(BotType::Mcts.name(), "MctsBot");
    assert_eq!(BotType::AlphaBeta.name(), "AlphaBetaBot");
    assert_eq!(BotType::AgentSpecialist(Faction::Argentum).name(), "Agent-Argentum");
    assert_eq!(BotType::AgentGeneralist.name(), "Agent-Generalist");
}

#[test]
fn test_bot_type_uses_mcts() {
    assert!(!BotType::Random.uses_mcts());
    assert!(!BotType::Greedy.uses_mcts());
    assert!(!BotType::AlphaBeta.uses_mcts());
    assert!(BotType::Mcts.uses_mcts());
    assert!(BotType::AgentSpecialist(Faction::Argentum).uses_mcts());
    assert!(BotType::AgentGeneralist.uses_mcts());
}

#[test]
fn test_bot_type_agent_weights_path() {
    assert_eq!(BotType::Random.agent_weights_path().map(PathBuf::from), None);
    assert_eq!(BotType::Greedy.agent_weights_path().map(PathBuf::from), None);
    assert_eq!(BotType::Mcts.agent_weights_path().map(PathBuf::from), None);
    assert_eq!(BotType::AlphaBeta.agent_weights_path().map(PathBuf::from), None);
    assert_eq!(
        BotType::AgentSpecialist(Faction::Argentum).agent_weights_path().map(PathBuf::from),
        Some(PathBuf::from("data/weights/specialists/argentum.toml"))
    );
    assert_eq!(
        BotType::AgentGeneralist.agent_weights_path().map(PathBuf::from),
        Some(PathBuf::from("data/weights/generalist.toml"))
    );
}

#[test]
fn test_bot_type_faction() {
    assert_eq!(BotType::Random.faction(), None);
    assert_eq!(BotType::Mcts.faction(), None);
    assert_eq!(BotType::AgentSpecialist(Faction::Argentum).faction(), Some(Faction::Argentum));
    assert_eq!(BotType::AgentGeneralist.faction(), None);
}

#[test]
fn test_bot_type_is_competitive() {
    assert!(!BotType::Random.is_competitive());
    assert!(!BotType::Greedy.is_competitive());
    assert!(BotType::Mcts.is_competitive());
    assert!(BotType::AlphaBeta.is_competitive());
    assert!(BotType::AgentSpecialist(Faction::Argentum).is_competitive());
    assert!(BotType::AgentGeneralist.is_competitive());
}

#[test]
fn parse_error_keeps_the_name_and_message() {
    let e = BotType::parse("Wizard").unwrap_err();
    assert_eq!(e.0, "Wizard");
    assert_eq!(e.message(), "unknown bot type: 'Wizard'");
}

#[test]
fn parse_mixed_case_agent_names() {
    assert_eq!(BotType::parse("Agent-Obsidion").unwrap(), BotType::AgentSpecialist(Faction::Obsidion));
    assert_eq!(BotType::parse("AB").unwrap(), BotType::AlphaBeta);
    assert!(BotType::parse("agent-neutral").is_err());
    assert!(BotType::parse("").is_err());
}

#[test]
fn every_listed_name_parses() {
    let names = BotType::all_names();
    assert_eq!(names.len(), 8);
    for n in names {
        assert!(BotType::parse(n).is_ok());
    }
}

#[test]
fn listed_names_parse_to_distinct_types() {
    let parsed: Vec<BotType> = BotType::all_names().iter().map(|n| BotType::parse(n).unwrap()).collect();
    for i in 0..parsed.len() {
        for j in (i + 1)..parsed.len() {
            assert_ne!(parsed[i], parsed[j]);
        }
    }
    assert_eq!(parsed[3], BotType::AlphaBeta);
    assert_eq!(parsed[7], BotType::AgentGeneralist);
}

#[test]
fn neutral_specialist_name_and_path() {
    let b = BotType::AgentSpecialist(Faction::Neutral);
    assert_eq!(b.name(), "Agent-Neutral");
    assert_eq!(b.agent_weights_path(), Some("data/weights/specialists/neutral.toml".to_string()));
}

#[test]
fn archetype_files_ignore_case() {
    assert_eq!(archetype_weights_file("Aggro"), Some("aggro.toml"));
    assert_eq!(archetype_weights_file("CONTROL"), Some("control.toml"));
    assert_eq!(archetype_weights_file("tempo"), Some("tempo.toml"));
    assert_eq!(archetype_weights_file("Midrange"), Some("midrange.toml"));
    assert_eq!(archetype_weights_file("combo"), None);
}

fn lookup_strings(ls: &[WeightLookup]) -> Vec<(String, bool)> {
    ls.iter()
        .map(|l| match l {
            WeightLookup::Required(p) => (p.clone(), true),
            WeightLookup::Optional(p) => (p.clone(), false),
        })
        .collect()
}

#[test]
fn explicit_weights_path_takes_precedence() {
    let ls = weight_lookups(&BotType::AgentGeneralist, Some("my/weights.toml"), Some("aggro"));
    assert_eq!(lookup_strings(&ls), vec![("my/weights.toml".to_string(), true)]);
}

#[test]
fn agent_then_archetype_weights() {
    let ls = weight_lookups(&BotType::AgentSpecialist(Faction::Symbiote), None, Some("Tempo"));
    assert_eq!(
        lookup_strings(&ls),
        vec![
            ("data/weights/specialists/symbiote.toml".to_string(), false),
            ("data/weights/archetypes/tempo.toml".to_string(), false),
        ]
    );
    let ls = weight_lookups(&BotType::Greedy, None, Some("unknown"));
    assert!(ls.is_empty());
    let ls = weight_lookups(&BotType::Mcts, None, Some("control"));
    assert_eq!(lookup_strings(&ls), vec![("data/weights/archetypes/control.toml".to_string(), false)]);
}

#[test]
fn weight_resolution_error_message() {
    let e = WeightResolutionError::LoadFailed("w.toml".to_string(), "missing".to_string());
    assert_eq!(e.message(), "Failed to load weights from \"w.toml\": missing");
}

#[test]
fn a_loaded_file_is_used_and_a_failed_one_decides_by_kind() {
    let req = WeightLookup::Required("x.toml".to_string());
    let opt = WeightLookup::Optional("y.toml".to_string());
    assert_eq!(lookup_step(&req, true), LookupStep::Use);
    assert_eq!(lookup_step(&opt, true), LookupStep::Use);
    assert_eq!(lookup_step(&req, false), LookupStep::Fail);
    assert_eq!(lookup_step(&opt, false), LookupStep::Next);
}
