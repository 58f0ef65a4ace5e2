//! Bot types, their names and parsing, and where their weights come from.

use vstd::prelude::*;
use crate::decks::Faction;
use crate::gamecore::text::{ascii_lower, eq_ignore_ascii_case};

verus! {

/// Bot types that can take part in matches.
#[derive(Clone, Copy, Debug, PartialEq, Eq, Structural)]
pub enum BotType {
    /// Random action selection.
    Random,
    /// Greedy single-step evaluation.
    Greedy,
    /// Monte Carlo Tree Search.
    Mcts,
    /// Alpha-beta pruning (minimax search).
    AlphaBeta,
    /// Specialist agent of a faction (MCTS with specialist weights).
    AgentSpecialist(Faction),
    /// Generalist agent (MCTS with generalist weights).
    AgentGeneralist,
}

/// The name given was not one of a bot type.
#[derive(Clone, Debug)]
pub struct BotTypeParseError(pub String);

impl BotTypeParseError {
    /// The text of the error: `unknown bot type: '<name>'`.
    pub fn message(&self) -> (r: String)
        ensures
            r@ == "unknown bot type: '"@ + self.0@ + "'"@,
    {
        let mut m = String::from_str("unknown bot type: '");
        m.append(self.0.as_str());
        m.append("'");
        m
    }
}

/// Whether `s` names `lit`, ignoring ASCII case.
pub open spec fn names(s: Seq<char>, lit: Seq<char>) -> bool {
    ascii_lower(s) == ascii_lower(lit)
}

/// The bot type a name stands for, ignoring ASCII case.
pub open spec fn bot_type_named(s: Seq<char>) -> Option<BotType> {
    if names(s, "random"@) {
        Some(BotType::Random)
    } else if names(s, "greedy"@) {
        Some(BotType::Greedy)
    } else if names(s, "mcts"@) {
        Some(BotType::Mcts)
    } else if names(s, "alphabeta"@) || names(s, "alpha-beta"@) || names(s, "ab"@) {
        Some(BotType::AlphaBeta)
    } else if names(s, "agent-argentum"@) {
        Some(BotType::AgentSpecialist(Faction::Argentum))
    } else if names(s, "agent-symbiote"@) {
        Some(BotType::AgentSpecialist(Faction::Symbiote))
    } else if names(s, "agent-obsidion"@) {
        Some(BotType::AgentSpecialist(Faction::Obsidion))
    } else if names(s, "agent-generalist"@) {
        Some(BotType::AgentGeneralist)
    } else {
        None
    }
}

/// The bot type names, in the order `BotType::all_names` lists them.
pub open spec fn bot_names() -> Seq<Seq<char>> {
    seq!["random"@, "greedy"@, "mcts"@, "alphabeta"@, "agent-argentum"@, "agent-symbiote"@, "agent-obsidion"@,
        "agent-generalist"@]
}

proof fn lemma_not_names_len(s: Seq<char>, lit: Seq<char>)
    requires
        s.len() != lit.len(),
    ensures
        !names(s, lit),
{
    assert(ascii_lower(s).len() == s.len());
    assert(ascii_lower(lit).len() == lit.len());
}

proof fn lemma_not_names_at(s: Seq<char>, lit: Seq<char>, k: int)
    requires
        0 <= k < s.len(),
        k < lit.len(),
        crate::gamecore::text::lower_char(s[k]) != crate::gamecore::text::lower_char(lit[k]),
    ensures
        !names(s, lit),
{
    assert(ascii_lower(s)[k] == crate::gamecore::text::lower_char(s[k]));
    assert(ascii_lower(lit)[k] == crate::gamecore::text::lower_char(lit[k]));
}

/// Law: each of the listed bot type names parses, and no two of them name
/// the same bot type.
pub proof fn lemma_all_names_parse()
    ensures
        forall|i: int| 0 <= i < bot_names().len() ==> #[trigger] bot_type_named(bot_names()[i]) is Some,
        forall|i: int, j: int| 0 <= i < j < bot_names().len()
            ==> #[trigger] bot_type_named(bot_names()[i]) != #[trigger] bot_type_named(bot_names()[j]),
{
    reveal_strlit("random");
    reveal_strlit("greedy");
    reveal_strlit("mcts");
    reveal_strlit("alphabeta");
    reveal_strlit("alpha-beta");
    reveal_strlit("ab");
    reveal_strlit("agent-argentum");
    reveal_strlit("agent-symbiote");
    reveal_strlit("agent-obsidion");
    reveal_strlit("agent-generalist");
    let n = bot_names();
    let lits = seq!["random"@, "greedy"@, "mcts"@, "alphabeta"@, "alpha-beta"@, "ab"@, "agent-argentum"@,
        "agent-symbiote"@, "agent-obsidion"@, "agent-generalist"@];
    // different lengths
    assert forall|a: int, b: int| 0 <= a < 10 && 0 <= b < 10 && lits[a].len() != lits[b].len()
        implies !names(#[trigger] lits[a], #[trigger] lits[b]) by {
        lemma_not_names_len(lits[a], lits[b]);
    }
    lemma_not_names_at("greedy"@, "random"@, 0);
    lemma_not_names_at("agent-symbiote"@, "agent-argentum"@, 6);
    lemma_not_names_at("agent-obsidion"@, "agent-argentum"@, 6);
    lemma_not_names_at("agent-obsidion"@, "agent-symbiote"@, 6);
    assert(lits[0] == "random"@ && lits[1] == "greedy"@ && lits[2] == "mcts"@ && lits[3] == "alphabeta"@);
    assert(lits[4] == "alpha-beta"@ && lits[5] == "ab"@ && lits[6] == "agent-argentum"@ && lits[7] == "agent-symbiote"@);
    assert(lits[8] == "agent-obsidion"@ && lits[9] == "agent-generalist"@);
    assert(bot_type_named(n[0]) == Some(BotType::Random));
    assert(bot_type_named(n[1]) == Some(BotType::Greedy));
    assert(bot_type_named(n[2]) == Some(BotType::Mcts));
    assert(bot_type_named(n[3]) == Some(BotType::AlphaBeta));
    assert(bot_type_named(n[4]) == Some(BotType::AgentSpecialist(Faction::Argentum)));
    assert(bot_type_named(n[5]) == Some(BotType::AgentSpecialist(Faction::Symbiote)));
    assert(bot_type_named(n[6]) == Some(BotType::AgentSpecialist(Faction::Obsidion)));
    assert(bot_type_named(n[7]) == Some(BotType::AgentGeneralist));
}

/// The display name of a bot type.
pub open spec fn bot_display_name(b: BotType) -> Seq<char> {
    match b {
        BotType::Random => "RandomBot"@,
        BotType::Greedy => "GreedyBot"@,
        BotType::Mcts => "MctsBot"@,
        BotType::AlphaBeta => "AlphaBetaBot"@,
        BotType::AgentSpecialist(Faction::Argentum) => "Agent-Argentum"@,
        BotType::AgentSpecialist(Faction::Symbiote) => "Agent-Symbiote"@,
        BotType::AgentSpecialist(Faction::Obsidion) => "Agent-Obsidion"@,
        BotType::AgentSpecialist(Faction::Neutral) => "Agent-Neutral"@,
        BotType::AgentGeneralist => "Agent-Generalist"@,
    }
}

/// The lower-case tag of a faction.
pub open spec fn faction_tag(f: Faction) -> Seq<char> {
    match f {
        Faction::Argentum => "argentum"@,
        Faction::Symbiote => "symbiote"@,
        Faction::Obsidion => "obsidion"@,
        Faction::Neutral => "neutral"@,
    }
}

/// The weights file of an agent bot type, relative to the project root.
pub open spec fn agent_weights_file(b: BotType) -> Option<Seq<char>> {
    match b {
        BotType::AgentSpecialist(f) => Some("data/weights/specialists/"@ + faction_tag(f) + ".toml"@),
        BotType::AgentGeneralist => Some("data/weights/generalist.toml"@),
        _ => None,
    }
}

impl BotType {
    /// Parse a bot type from its name, ignoring ASCII case.
    pub fn parse(s: &str) -> (r: Result<BotType, BotTypeParseError>)
        ensures
            bot_type_named(s@) matches Some(b) ==> r == Ok::<BotType, BotTypeParseError>(b),
            bot_type_named(s@) is None ==> (r matches Err(e) && e.0@ == s@),
    {
        if eq_ignore_ascii_case(s, "random") {
            Ok(BotType::Random)
        } else if eq_ignore_ascii_case(s, "greedy") {
            Ok(BotType::Greedy)
        } else if eq_ignore_ascii_case(s, "mcts") {
            Ok(BotType::Mcts)
        } else if eq_ignore_ascii_case(s, "alphabeta") || eq_ignore_ascii_case(s, "alpha-beta")
            || eq_ignore_ascii_case(s, "ab") {
            Ok(BotType::AlphaBeta)
        } else if eq_ignore_ascii_case(s, "agent-argentum") {
            Ok(BotType::AgentSpecialist(Faction::Argentum))
        } else if eq_ignore_ascii_case(s, "agent-symbiote") {
            Ok(BotType::AgentSpecialist(Faction::Symbiote))
        } else if eq_ignore_ascii_case(s, "agent-obsidion") {
            Ok(BotType::AgentSpecialist(Faction::Obsidion))
        } else if eq_ignore_ascii_case(s, "agent-generalist") {
            Ok(BotType::AgentGeneralist)
        } else {
            Err(BotTypeParseError(s.to_string()))
        }
    }

    /// The display name of this bot type.
    pub fn name(&self) -> (r: &'static str)
        ensures
            r@ == bot_display_name(*self),
    {
        match self {
            BotType::Random => "RandomBot",
            BotType::Greedy => "GreedyBot",
            BotType::Mcts => "MctsBot",
            BotType::AlphaBeta => "AlphaBetaBot",
            BotType::AgentSpecialist(Faction::Argentum) => "Agent-Argentum",
            BotType::AgentSpecialist(Faction::Symbiote) => "Agent-Symbiote",
            BotType::AgentSpecialist(Faction::Obsidion) => "Agent-Obsidion",
            BotType::AgentSpecialist(Faction::Neutral) => "Agent-Neutral",
            BotType::AgentGeneralist => "Agent-Generalist",
        }
    }

    /// Whether this bot type searches with MCTS.
    pub fn uses_mcts(&self) -> (r: bool)
        ensures
            r == (*self is Mcts || *self is AgentSpecialist || *self is AgentGeneralist),
    {
        matches!(self, BotType::Mcts | BotType::AgentSpecialist(_) | BotType::AgentGeneralist)
    }

    /// Whether this bot type is fit for balance validation: every type but
    /// the debug bots (Random, Greedy).
    pub fn is_competitive(&self) -> (r: bool)
        ensures
            r == !(*self is Random || *self is Greedy),
    {
        matches!(self, BotType::Mcts | BotType::AlphaBeta | BotType::AgentSpecialist(_) | BotType::AgentGeneralist)
    }

    /// The weights file of an agent bot type, relative to the project root.
    pub fn agent_weights_path(&self) -> (r: Option<String>)
        ensures
            r is None <==> agent_weights_file(*self) is None,
            r matches Some(p) ==> p@ == agent_weights_file(*self)->0,
    {
        match self {
            BotType::AgentSpecialist(faction) => {
                let mut p = String::from_str("data/weights/specialists/");
                p.append(faction.as_tag());
                p.append(".toml");
                Some(p)
            }
            BotType::AgentGeneralist => Some(String::from_str("data/weights/generalist.toml")),
            _ => None,
        }
    }

    /// The faction of a specialist agent.
    pub fn faction(&self) -> (r: Option<Faction>)
        ensures
            r == (match *self {
                BotType::AgentSpecialist(f) => Some(f),
                _ => None,
            }),
    {
        match self {
            BotType::AgentSpecialist(f) => Some(*f),
            _ => None,
        }
    }

    /// All bot type names, as the command line takes them.
    pub fn all_names() -> (r: Vec<&'static str>)
        ensures
            r@.len() == 8,
            forall|i: int| 0 <= i < 8 ==> (#[trigger] r@[i])@ == bot_names()[i],
            r@[0]@ == "random"@,
            r@[1]@ == "greedy"@,
            r@[2]@ == "mcts"@,
            r@[3]@ == "alphabeta"@,
            r@[4]@ == "agent-argentum"@,
            r@[5]@ == "agent-symbiote"@,
            r@[6]@ == "agent-obsidion"@,
            r@[7]@ == "agent-generalist"@,
    {
        vec!["random", "greedy", "mcts", "alphabeta", "agent-argentum", "agent-symbiote", "agent-obsidion",
            "agent-generalist"]
    }
}

impl std::str::FromStr for BotType {
    type Err = BotTypeParseError;

    fn from_str(s: &str) -> Result<BotType, BotTypeParseError> {
        BotType::parse(s)
    }
}

/// The weights file of a deck archetype, ignoring ASCII case.
pub open spec fn archetype_file(a: Seq<char>) -> Option<Seq<char>> {
    if names(a, "aggro"@) {
        Some("aggro.toml"@)
    } else if names(a, "control"@) {
        Some("control.toml"@)
    } else if names(a, "tempo"@) {
        Some("tempo.toml"@)
    } else if names(a, "midrange"@) {
        Some("midrange.toml"@)
    } else {
        None
    }
}

/// The weights file of a deck archetype (Aggro, Control, Tempo, Midrange),
/// if it is one.
pub fn archetype_weights_file(archetype: &str) -> (r: Option<&'static str>)
    ensures
        r is None <==> archetype_file(archetype@) is None,
        r matches Some(f) ==> f@ == archetype_file(archetype@)->0,
{
    if eq_ignore_ascii_case(archetype, "aggro") {
        Some("aggro.toml")
    } else if eq_ignore_ascii_case(archetype, "control") {
        Some("control.toml")
    } else if eq_ignore_ascii_case(archetype, "tempo") {
        Some("tempo.toml")
    } else if eq_ignore_ascii_case(archetype, "midrange") {
        Some("midrange.toml")
    } else {
        None
    }
}

/// One weights file to try: a failure to load a required one is an error,
/// an optional one is skipped.
#[derive(Clone, Debug)]
pub enum WeightLookup {
    /// A file named explicitly (absolute, or relative to the base directory).
    Required(String),
    /// A file relative to the base directory.
    Optional(String),
}

/// The weights files to try, in order: an explicit path alone if one is
/// given; else the agent's file, then the archetype's file.
pub open spec fn weight_plan(b: BotType, explicit: Option<Seq<char>>, archetype: Option<Seq<char>>) -> Seq<WeightLookupView> {
    match explicit {
        Some(p) => seq![WeightLookupView { path: p, required: true }],
        None => {
            let agent: Seq<WeightLookupView> = match agent_weights_file(b) {
                Some(f) => seq![WeightLookupView { path: f, required: false }],
                None => Seq::empty(),
            };
            let arch: Seq<WeightLookupView> = match archetype {
                Some(a) => match archetype_file(a) {
                    Some(f) => seq![WeightLookupView { path: "data/weights/archetypes/"@ + f, required: false }],
                    None => Seq::empty(),
                },
                None => Seq::empty(),
            };
            agent + arch
        },
    }
}

/// A weights lookup as a path and whether it is required.
pub struct WeightLookupView {
    pub path: Seq<char>,
    pub required: bool,
}

impl WeightLookup {
    /// The lookup as a path and whether it is required.
    pub open spec fn view_of(self) -> WeightLookupView {
        match self {
            WeightLookup::Required(p) => WeightLookupView { path: p@, required: true },
            WeightLookup::Optional(p) => WeightLookupView { path: p@, required: false },
        }
    }
}

/// What follows trying one weights lookup: use what it loaded, fail, or
/// try the next lookup.
#[derive(Clone, Copy, Debug, PartialEq, Eq, Structural)]
pub enum LookupStep {
    Use,
    Fail,
    Next,
}

/// The step after a lookup that is `required` or not, and `loaded` or not:
/// a file that loads is used; a required one that fails is an error; an
/// optional one that fails is skipped.
pub open spec fn lookup_step_of(required: bool, loaded: bool) -> LookupStep {
    if loaded {
        LookupStep::Use
    } else if required {
        LookupStep::Fail
    } else {
        LookupStep::Next
    }
}

/// Decide what follows trying lookup `l`, given whether its file loaded.
pub fn lookup_step(l: &WeightLookup, loaded: bool) -> (r: LookupStep)
    ensures
        r == lookup_step_of(l.view_of().required, loaded),
{
    if loaded {
        LookupStep::Use
    } else {
        match l {
            WeightLookup::Required(_) => LookupStep::Fail,
            WeightLookup::Optional(_) => LookupStep::Next,
        }
    }
}

/// The weights files to try for a bot, in order of precedence.
pub fn weight_lookups(bot_type: &BotType, explicit_path: Option<&str>, archetype: Option<&str>) -> (r: Vec<WeightLookup>)
    ensures
        r@.map_values(|l: WeightLookup| l.view_of()) == weight_plan(*bot_type,
            match explicit_path { Some(p) => Some(p@), None => None },
            match archetype { Some(a) => Some(a@), None => None }),
{
    let mut out: Vec<WeightLookup> = Vec::new();
    match explicit_path {
        Some(p) => {
            out.push(WeightLookup::Required(p.to_string()));
            proof {
                assert(out@.map_values(|l: WeightLookup| l.view_of()) =~= seq![WeightLookupView { path: p@, required: true }]);
            }
            return out;
        }
        None => {}
    }
    if let Some(f) = bot_type.agent_weights_path() {
        out.push(WeightLookup::Optional(f));
    }
    let ghost agent_part = out@.map_values(|l: WeightLookup| l.view_of());
    if let Some(a) = archetype {
        if let Some(f) = archetype_weights_file(a) {
            let mut p = String::from_str("data/weights/archetypes/");
            p.append(f);
            out.push(WeightLookup::Optional(p));
        }
    }
    proof {
        let agent: Seq<WeightLookupView> = match agent_weights_file(*bot_type) {
            Some(f) => seq![WeightLookupView { path: f, required: false }],
            None => Seq::empty(),
        };
        assert(agent_part =~= agent);
        let arch: Seq<WeightLookupView> = match archetype {
            Some(a) => match archetype_file(a@) {
                Some(f) => seq![WeightLookupView { path: "data/weights/archetypes/"@ + f, required: false }],
                None => Seq::empty(),
            },
            None => Seq::empty(),
        };
        assert(out@.map_values(|l: WeightLookup| l.view_of()) =~= agent + arch);
    }
    out
}

/// Loading the weights failed.
#[derive(Clone, Debug)]
pub enum WeightResolutionError {
    /// The weights at this path could not be loaded, for this reason.
    LoadFailed(String, String),
}

impl WeightResolutionError {
    /// The text of the error.
    pub fn message(&self) -> (r: String)
        ensures
            (match self {
                WeightResolutionError::LoadFailed(p, m) => r@ == "Failed to load weights from \""@ + p@ + "\": "@ + m@,
            }),
    {
        match self {
            WeightResolutionError::LoadFailed(p, m) => {
                let mut s = String::from_str("Failed to load weights from \"");
                s.append(p.as_str());
                s.append("\": ");
                s.append(m.as_str());
                s
            }
        }
    }
}

} // verus!
