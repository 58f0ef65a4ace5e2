//! Swiss tournament pieces: its configuration, match results and outcomes
//! between two decks, participants and their records, rounds, and the
//! pairing of a ranked field.

use vstd::prelude::*;
use crate::bots::factory::BotType;
use crate::gamecore::cards::Faction;
use crate::decks::DeckDefinition;
use crate::gamecore::text::str_eq;

verus! {

/// The result of a match, from one player's side.
#[derive(Clone, Copy, Debug, PartialEq, Eq, Structural)]
pub enum TournamentMatchResult {
    Win,
    Loss,
    Draw,
}

impl TournamentMatchResult {
    /// The same result seen from the other side.
    pub open spec fn spec_inverse(self) -> TournamentMatchResult {
        match self {
            TournamentMatchResult::Win => TournamentMatchResult::Loss,
            TournamentMatchResult::Loss => TournamentMatchResult::Win,
            TournamentMatchResult::Draw => TournamentMatchResult::Draw,
        }
    }

    /// The same result seen from the other side.
    pub fn inverse(&self) -> (r: TournamentMatchResult)
        ensures
            r == self.spec_inverse(),
    {
        match self {
            TournamentMatchResult::Win => TournamentMatchResult::Loss,
            TournamentMatchResult::Loss => TournamentMatchResult::Win,
            TournamentMatchResult::Draw => TournamentMatchResult::Draw,
        }
    }

    /// The match points a result earns: 3 for a win, 1 for a draw.
    pub fn points(&self) -> (r: u32)
        ensures
            r == (match self {
                TournamentMatchResult::Win => 3u32,
                TournamentMatchResult::Draw => 1u32,
                TournamentMatchResult::Loss => 0u32,
            }),
    {
        match self {
            TournamentMatchResult::Win => 3,
            TournamentMatchResult::Draw => 1,
            TournamentMatchResult::Loss => 0,
        }
    }

    /// The result of a match in which one side won `wins` games and the
    /// other `losses`: more wins is a win, fewer a loss, as many a draw.
    pub fn from_games(wins: usize, losses: usize) -> (r: TournamentMatchResult)
        ensures
            r == games_result(wins as int, losses as int),
    {
        if wins > losses {
            TournamentMatchResult::Win
        } else if losses > wins {
            TournamentMatchResult::Loss
        } else {
            TournamentMatchResult::Draw
        }
    }
}

/// The result of a match in which one side won `wins` games and the other
/// `losses`.
pub open spec fn games_result(wins: int, losses: int) -> TournamentMatchResult {
    if wins > losses {
        TournamentMatchResult::Win
    } else if losses > wins {
        TournamentMatchResult::Loss
    } else {
        TournamentMatchResult::Draw
    }
}

/// Seen from the other side twice, a result is unchanged.
pub proof fn lemma_inverse_involutive(r: TournamentMatchResult)
    ensures
        r.spec_inverse().spec_inverse() == r,
{
}

/// The two sides of one match see inverse results: swapping the game counts
/// inverts the result.
pub proof fn lemma_games_result_swap(wins: int, losses: int)
    ensures
        games_result(losses, wins) == games_result(wins, losses).spec_inverse(),
{
}

/// The least `k` with `2^k >= n` (for `n >= 1`).
pub open spec fn ceil_log2(n: nat) -> nat
    decreases n,
{
    if n <= 1 { 0 } else { 1 + ceil_log2(((n + 1) / 2) as nat) }
}

proof fn lemma_ceil_log2_below(n: nat)
    requires
        n >= 1,
    ensures
        ceil_log2(n) < n,
    decreases n,
{
    if n > 1 {
        lemma_ceil_log2_below(((n + 1) / 2) as nat);
    }
}

/// How a Swiss tournament is run: rounds, games per match, the bot that
/// plays every deck, the base seed, progress display and an optional
/// faction to which the field is limited.
#[derive(Clone, Copy, Debug)]
pub struct SwissConfig {
    pub rounds: usize,
    pub games_per_match: usize,
    pub bot_type: BotType,
    pub seed: u64,
    pub show_progress: bool,
    pub faction_filter: Option<Faction>,
}

impl SwissConfig {
    /// A configuration without progress display or faction filter.
    pub fn new(rounds: usize, games_per_match: usize, bot_type: BotType, seed: u64) -> (r: SwissConfig)
        ensures
            r == (SwissConfig { rounds, games_per_match, bot_type, seed, show_progress: false, faction_filter: None }),
    {
        SwissConfig { rounds, games_per_match, bot_type, seed, show_progress: false, faction_filter: None }
    }

    /// The same configuration with progress display on or off.
    pub fn with_progress(self, show: bool) -> (r: SwissConfig)
        ensures
            r == (SwissConfig { show_progress: show, ..self }),
    {
        SwissConfig { show_progress: show, ..self }
    }

    /// The same configuration limited to one faction, or to none.
    pub fn with_faction(self, faction: Option<Faction>) -> (r: SwissConfig)
        ensures
            r == (SwissConfig { faction_filter: faction, ..self }),
    {
        SwissConfig { faction_filter: faction, ..self }
    }

    /// The number of Swiss rounds recommended for a field of this size:
    /// `ceil(log2(n)) + 1`, and none for a field of at most one.
    pub fn recommended_rounds(participant_count: usize) -> (r: usize)
        ensures
            participant_count <= 1 ==> r == 0,
            participant_count > 1 ==> r == ceil_log2(participant_count as nat) + 1,
    {
        if participant_count <= 1 {
            return 0;
        }
        proof { lemma_ceil_log2_below(participant_count as nat); }
        let mut n = participant_count;
        let mut k: usize = 0;
        while n > 1
            invariant
                1 <= n <= participant_count,
                k + ceil_log2(n as nat) == ceil_log2(participant_count as nat),
                ceil_log2(participant_count as nat) < participant_count,
            decreases n,
        {
            assert(n / 2 + n % 2 == (n + 1) / 2);
            n = n / 2 + n % 2;
            k = k + 1;
        }
        k + 1
    }
}

/// A pairing of one round: two decks, or one deck with a bye.
#[derive(Clone, Debug)]
pub struct Pairing {
    /// The first deck's id.
    pub player1_id: String,
    /// The second deck's id; none for a bye.
    pub player2_id: Option<String>,
}

impl Pairing {
    /// A pairing of two decks.
    pub fn new(player1_id: String, player2_id: String) -> (r: Pairing)
        ensures
            r.player1_id == player1_id,
            r.player2_id == Some(player2_id),
    {
        Pairing { player1_id, player2_id: Some(player2_id) }
    }

    /// A bye for one deck.
    pub fn bye(player_id: String) -> (r: Pairing)
        ensures
            r.player1_id == player_id,
            r.player2_id is None,
    {
        Pairing { player1_id: player_id, player2_id: None }
    }

    /// Whether this pairing is a bye.
    pub fn is_bye(&self) -> (r: bool)
        ensures
            r == self.player2_id is None,
    {
        self.player2_id.is_none()
    }
}

/// The games of a match between two decks, counted from the first deck's side.
#[derive(Clone, Copy, Debug, PartialEq, Eq, Structural)]
pub struct MatchupStats {
    pub games: usize,
    pub bot1_wins: usize,
    pub bot2_wins: usize,
    pub draws: usize,
}

/// One deck's outcome of a match: the match result and its games.
#[derive(Clone, Copy, Debug, PartialEq, Eq, Structural)]
pub struct MatchOutcome {
    pub result: TournamentMatchResult,
    pub wins: usize,
    pub losses: usize,
    pub draws: usize,
    pub games: usize,
}

impl MatchOutcome {
    /// The outcome for the first deck of a match, or for the second.
    pub open spec fn spec_from_stats(stats: MatchupStats, is_player1: bool) -> MatchOutcome {
        let w = if is_player1 { stats.bot1_wins } else { stats.bot2_wins };
        let l = if is_player1 { stats.bot2_wins } else { stats.bot1_wins };
        MatchOutcome { result: games_result(w as int, l as int), wins: w, losses: l, draws: stats.draws, games: stats.games }
    }

    /// The outcome for the first deck of a match (`is_player1`), or for the second.
    pub fn from_stats(stats: &MatchupStats, is_player1: bool) -> (r: MatchOutcome)
        ensures
            r == MatchOutcome::spec_from_stats(*stats, is_player1),
    {
        let (wins, losses) = if is_player1 { (stats.bot1_wins, stats.bot2_wins) } else { (stats.bot2_wins, stats.bot1_wins) };
        MatchOutcome {
            result: TournamentMatchResult::from_games(wins, losses),
            wins,
            losses,
            draws: stats.draws,
            games: stats.games,
        }
    }

    /// The same outcome from the opponent's side.
    pub open spec fn spec_inverse(self) -> MatchOutcome {
        MatchOutcome { result: self.result.spec_inverse(), wins: self.losses, losses: self.wins, ..self }
    }

    /// The same outcome from the opponent's side.
    pub fn inverse(&self) -> (r: MatchOutcome)
        ensures
            r == self.spec_inverse(),
    {
        MatchOutcome { result: self.result.inverse(), wins: self.losses, losses: self.wins, draws: self.draws, games: self.games }
    }
}

/// Seen from the other side twice, an outcome is unchanged.
pub proof fn lemma_outcome_inverse_involutive(o: MatchOutcome)
    ensures
        o.spec_inverse().spec_inverse() == o,
{
}

/// The second deck's outcome of a match is the inverse of the first deck's.
pub proof fn lemma_outcome_sides(stats: MatchupStats)
    ensures
        MatchOutcome::spec_from_stats(stats, false) == MatchOutcome::spec_from_stats(stats, true).spec_inverse(),
{
    lemma_games_result_swap(stats.bot1_wins as int, stats.bot2_wins as int);
}

/// The match points of a result: 3 for a win, 1 for a draw, none for a loss.
pub open spec fn result_points(r: TournamentMatchResult) -> int {
    match r {
        TournamentMatchResult::Win => 3,
        TournamentMatchResult::Draw => 1,
        TournamentMatchResult::Loss => 0,
    }
}

/// The texts of a list of strings.
pub open spec fn texts(v: Seq<String>) -> Seq<Seq<char>> {
    v.map_values(|x: String| x@)
}

/// A match history seen as opponent ids and outcomes.
pub open spec fn history_view(h: Seq<(String, MatchOutcome)>) -> Seq<(Seq<char>, MatchOutcome)> {
    h.map_values(|e: (String, MatchOutcome)| (e.0@, e.1))
}

/// The position of the entry for `id` at or after `i`, or -1.
pub open spec fn history_index_from(h: Seq<(Seq<char>, MatchOutcome)>, id: Seq<char>, i: int) -> int
    decreases h.len() - i,
{
    if i < 0 || i >= h.len() {
        -1
    } else if h[i].0 == id {
        i
    } else {
        history_index_from(h, id, i + 1)
    }
}

/// The history after recording `o` against `id`: it replaces the entry for
/// `id`, or is added at the end.
pub open spec fn history_record(h: Seq<(Seq<char>, MatchOutcome)>, id: Seq<char>, o: MatchOutcome)
    -> Seq<(Seq<char>, MatchOutcome)>
{
    let i = history_index_from(h, id, 0);
    if i >= 0 { h.update(i, (id, o)) } else { h.push((id, o)) }
}

/// No opponent has two entries.
pub open spec fn history_ids_unique(h: Seq<(Seq<char>, MatchOutcome)>) -> bool {
    forall|j: int, k: int| 0 <= j < k < h.len() ==> (#[trigger] h[j]).0 != (#[trigger] h[k]).0
}

/// The sum of `f` over the outcomes of a history.
pub open spec fn history_sum(h: Seq<(Seq<char>, MatchOutcome)>, f: spec_fn(MatchOutcome) -> int) -> int
    decreases h.len(),
{
    if h.len() == 0 { 0 } else { history_sum(h.drop_last(), f) + f(h.last().1) }
}

/// What a total over a match history counts: games played, won, lost or
/// drawn, or matches ending in a given result.
#[derive(Clone, Copy, Debug, PartialEq, Eq, Structural)]
pub enum Tally {
    Games,
    Wins,
    Losses,
    Draws,
    Matches(TournamentMatchResult),
}

/// What one outcome adds to a total.
pub open spec fn tally_fn(t: Tally) -> spec_fn(MatchOutcome) -> int {
    |o: MatchOutcome| match t {
        Tally::Games => o.games as int,
        Tally::Wins => o.wins as int,
        Tally::Losses => o.losses as int,
        Tally::Draws => o.draws as int,
        Tally::Matches(r) => if o.result == r { 1int } else { 0int },
    }
}

/// A total over a history.
pub open spec fn history_total(h: Seq<(Seq<char>, MatchOutcome)>, t: Tally) -> int {
    history_sum(h, tally_fn(t))
}

/// The game totals of a history fit in a `usize`.
pub open spec fn history_totals_fit(h: Seq<(Seq<char>, MatchOutcome)>) -> bool {
    &&& history_total(h, Tally::Games) <= usize::MAX
    &&& history_total(h, Tally::Wins) <= usize::MAX
    &&& history_total(h, Tally::Losses) <= usize::MAX
    &&& history_total(h, Tally::Draws) <= usize::MAX
}

/// What one outcome adds to a total.
fn tally_of(o: &MatchOutcome, t: Tally) -> (r: usize)
    ensures
        r == tally_fn(t)(*o),
{
    match t {
        Tally::Games => o.games,
        Tally::Wins => o.wins,
        Tally::Losses => o.losses,
        Tally::Draws => o.draws,
        Tally::Matches(res) => if o.result == res { 1 } else { 0 },
    }
}

/// Totals are never negative, and a match count is at most the number of entries.
proof fn lemma_history_total_bounds(h: Seq<(Seq<char>, MatchOutcome)>, t: Tally)
    ensures
        history_total(h, t) >= 0,
        t is Matches ==> history_total(h, t) <= h.len(),
    decreases h.len(),
{
    if h.len() > 0 {
        lemma_history_total_bounds(h.drop_last(), t);
    }
}

/// The sum over a prefix grows by each next term.
proof fn lemma_history_sum_prefix(h: Seq<(Seq<char>, MatchOutcome)>, f: spec_fn(MatchOutcome) -> int, i: int)
    requires
        0 <= i < h.len(),
    ensures
        history_sum(h.subrange(0, i + 1), f) == history_sum(h.subrange(0, i), f) + f(h[i].1),
{
    assert(h.subrange(0, i + 1).drop_last() =~= h.subrange(0, i));
}

/// A total over a prefix is at most the whole total.
proof fn lemma_history_total_prefix(h: Seq<(Seq<char>, MatchOutcome)>, t: Tally, i: int)
    requires
        0 <= i <= h.len(),
    ensures
        history_total(h.subrange(0, i), t) <= history_total(h, t),
    decreases h.len(),
{
    if i < h.len() {
        assert(h.drop_last().subrange(0, i) =~= h.subrange(0, i));
        lemma_history_total_prefix(h.drop_last(), t, i);
        assert(tally_fn(t)(h.last().1) >= 0);
    } else {
        assert(h.subrange(0, i) =~= h);
    }
}

/// Replacing one entry changes a total by the difference of the two outcomes.
proof fn lemma_history_total_update(h: Seq<(Seq<char>, MatchOutcome)>, t: Tally, i: int, e: (Seq<char>, MatchOutcome))
    requires
        0 <= i < h.len(),
    ensures
        history_total(h.update(i, e), t) == history_total(h, t) - tally_fn(t)(h[i].1) + tally_fn(t)(e.1),
    decreases h.len(),
{
    let u = h.update(i, e);
    if i == h.len() - 1 {
        assert(u.drop_last() =~= h.drop_last());
    } else {
        assert(u.drop_last() =~= h.drop_last().update(i, e));
        lemma_history_total_update(h.drop_last(), t, i, e);
    }
}

/// Adding an entry adds its outcome to a total.
proof fn lemma_history_total_push(h: Seq<(Seq<char>, MatchOutcome)>, t: Tally, e: (Seq<char>, MatchOutcome))
    ensures
        history_total(h.push(e), t) == history_total(h, t) + tally_fn(t)(e.1),
{
    assert(h.push(e).drop_last() =~= h);
}

/// The index found is -1 or the place of `id` at or after `i`; with -1, no
/// entry from `i` on holds `id`.
proof fn lemma_history_index(h: Seq<(Seq<char>, MatchOutcome)>, id: Seq<char>, i: int)
    requires
        0 <= i,
    ensures
        history_index_from(h, id, i) == -1 ==> forall|j: int| i <= j < h.len() ==> (#[trigger] h[j]).0 != id,
        history_index_from(h, id, i) != -1 ==> i <= history_index_from(h, id, i) < h.len()
            && h[history_index_from(h, id, i)].0 == id,
    decreases h.len() - i,
{
    if i < h.len() && h[i].0 != id {
        lemma_history_index(h, id, i + 1);
    }
}

/// Recording an outcome keeps the opponents of a history distinct.
proof fn lemma_history_record_unique(h: Seq<(Seq<char>, MatchOutcome)>, id: Seq<char>, o: MatchOutcome)
    requires
        history_ids_unique(h),
    ensures
        history_ids_unique(history_record(h, id, o)),
{
    lemma_history_index(h, id, 0);
    let r = history_record(h, id, o);
    let i = history_index_from(h, id, 0);
    assert forall|j: int, k: int| 0 <= j < k < r.len() implies (#[trigger] r[j]).0 != (#[trigger] r[k]).0 by {
        if i >= 0 {
            assert(r[j].0 == h[j].0 && r[k].0 == h[k].0);
        } else if k == h.len() {
            assert(h[j].0 != id);
        } else {
            assert(r[j] == h[j] && r[k] == h[k]);
        }
    }
}

/// Recording `o` against `id` keeps the points in a `u32` and the game
/// totals in a `usize`.
pub open spec fn record_fits(p: Participant, id: Seq<char>, o: MatchOutcome) -> bool {
    &&& p.score + result_points(o.result) <= u32::MAX
    &&& history_totals_fit(history_record(history_view(p.match_history@), id, o))
}

/// `b` is `a` after recording `o` against `id`.
pub open spec fn recorded(a: Participant, b: Participant, id: Seq<char>, o: MatchOutcome) -> bool {
    &&& b.wf()
    &&& b.deck_id == a.deck_id
    &&& b.deck == a.deck
    &&& b.score == a.score + result_points(o.result)
    &&& texts(b.opponents@) == texts(a.opponents@).push(id)
    &&& history_view(b.match_history@) == history_record(history_view(a.match_history@), id, o)
}

/// One deck in a Swiss tournament: its id and deck, its match points, the
/// opponents it has met (in order) and its latest outcome against each.
pub struct Participant {
    pub deck_id: String,
    pub deck: DeckDefinition,
    pub score: u32,
    pub opponents: Vec<String>,
    pub match_history: Vec<(String, MatchOutcome)>,
}

impl Participant {
    /// Each opponent has one history entry, and the game totals fit in a `usize`.
    pub open spec fn wf(&self) -> bool {
        &&& history_ids_unique(history_view(self.match_history@))
        &&& history_totals_fit(history_view(self.match_history@))
    }

    /// A participant for a deck, with no points and no matches.
    pub fn new(deck: DeckDefinition) -> (r: Participant)
        ensures
            r.wf(),
            r.deck_id == deck.id,
            r.deck == deck,
            r.score == 0,
            r.opponents@.len() == 0,
            r.match_history@.len() == 0,
    {
        let deck_id = deck.id.clone();
        let r = Participant { deck_id, deck, score: 0, opponents: Vec::new(), match_history: Vec::new() };
        proof { assert(history_view(r.match_history@) =~= Seq::empty()); }
        r
    }

    /// Record a match against `opponent_id`: it joins the opponents, the
    /// result's points are added, and the outcome becomes the one recorded
    /// against that opponent.
    pub fn record_match(&mut self, opponent_id: &str, outcome: MatchOutcome)
        requires
            old(self).wf(),
            old(self).score + result_points(outcome.result) <= u32::MAX,
            history_totals_fit(history_record(history_view(old(self).match_history@), opponent_id@, outcome)),
        ensures
            final(self).wf(),
            final(self).deck_id == old(self).deck_id,
            final(self).deck == old(self).deck,
            final(self).score == old(self).score + result_points(outcome.result),
            texts(final(self).opponents@) == texts(old(self).opponents@).push(opponent_id@),
            history_view(final(self).match_history@)
                == history_record(history_view(old(self).match_history@), opponent_id@, outcome),
    {
        let ghost h0 = history_view(self.match_history@);
        let ghost o0 = self.opponents@;
        let mut i: usize = 0;
        let mut found = false;
        while i < self.match_history.len() && !found
            invariant
                i <= self.match_history@.len(),
                history_view(self.match_history@) == h0,
                !found ==> history_index_from(h0, opponent_id@, 0) == history_index_from(h0, opponent_id@, i as int),
                found ==> i < h0.len() && history_index_from(h0, opponent_id@, 0) == i,
            decreases self.match_history@.len() - i + if found { 0int } else { 1int },
        {
            if str_eq(self.match_history[i].0.as_str(), opponent_id) {
                proof { assert(h0[i as int].0 == opponent_id@); }
                found = true;
            } else {
                proof { assert(h0[i as int].0 != opponent_id@); }
                i = i + 1;
            }
        }
        proof { lemma_history_record_unique(h0, opponent_id@, outcome); }
        if found {
            self.match_history.set(i, (String::from_str(opponent_id), outcome));
            proof { assert(history_view(self.match_history@) =~= h0.update(i as int, (opponent_id@, outcome))); }
        } else {
            self.match_history.push((String::from_str(opponent_id), outcome));
            proof { assert(history_view(self.match_history@) =~= h0.push((opponent_id@, outcome))); }
        }
        self.opponents.push(String::from_str(opponent_id));
        proof { assert(texts(self.opponents@) =~= texts(o0).push(opponent_id@)); }
        self.score = self.score + outcome.result.points();
    }

    /// Whether the total `t` stays within a `usize` when the entry at `at`
    /// (or none) is replaced by outcome `o`.
    fn total_after_fits(&self, t: Tally, at: Option<usize>, o: &MatchOutcome) -> (r: bool)
        requires
            self.wf(),
            at matches Some(i) ==> i < self.match_history@.len(),
        ensures
            r == (history_total(history_view(self.match_history@), t)
                - (match at { Some(i) => tally_fn(t)(self.match_history@[i as int].1), None => 0int })
                + tally_fn(t)(*o) <= usize::MAX),
    {
        let tot = self.total(t) as u128;
        let old: u128 = match at {
            Some(i) => tally_of(&self.match_history[i].1, t) as u128,
            None => 0,
        };
        let new = tally_of(o, t) as u128;
        tot + new <= usize::MAX as u128 + old
    }

    /// Whether recording `outcome` against `opponent_id` keeps the points in
    /// a `u32` and the game totals in a `usize`.
    pub fn can_record(&self, opponent_id: &str, outcome: &MatchOutcome) -> (r: bool)
        requires
            self.wf(),
        ensures
            r == record_fits(*self, opponent_id@, *outcome),
    {
        let ghost h0 = history_view(self.match_history@);
        let mut i: usize = 0;
        let mut found = false;
        while i < self.match_history.len() && !found
            invariant
                i <= self.match_history@.len(),
                h0 == history_view(self.match_history@),
                !found ==> history_index_from(h0, opponent_id@, 0) == history_index_from(h0, opponent_id@, i as int),
                found ==> i < h0.len() && history_index_from(h0, opponent_id@, 0) == i,
            decreases self.match_history@.len() - i + if found { 0int } else { 1int },
        {
            if str_eq(self.match_history[i].0.as_str(), opponent_id) {
                proof { assert(h0[i as int].0 == opponent_id@); }
                found = true;
            } else {
                proof { assert(h0[i as int].0 != opponent_id@); }
                i = i + 1;
            }
        }
        let at = if found { Some(i) } else { None };
        proof {
            let e = (opponent_id@, *outcome);
            if found {
                assert(h0[i as int].1 == self.match_history@[i as int].1);
                lemma_history_total_update(h0, Tally::Games, i as int, e);
                lemma_history_total_update(h0, Tally::Wins, i as int, e);
                lemma_history_total_update(h0, Tally::Losses, i as int, e);
                lemma_history_total_update(h0, Tally::Draws, i as int, e);
            } else {
                lemma_history_total_push(h0, Tally::Games, e);
                lemma_history_total_push(h0, Tally::Wins, e);
                lemma_history_total_push(h0, Tally::Losses, e);
                lemma_history_total_push(h0, Tally::Draws, e);
            }
        }
        let points_fit = outcome.result.points() as u64 + self.score as u64 <= u32::MAX as u64;
        points_fit && self.total_after_fits(Tally::Games, at, outcome) && self.total_after_fits(Tally::Wins, at, outcome)
            && self.total_after_fits(Tally::Losses, at, outcome) && self.total_after_fits(Tally::Draws, at, outcome)
    }

    /// Whether this participant has met `opponent_id`.
    pub fn has_played(&self, opponent_id: &str) -> (r: bool)
        ensures
            r == texts(self.opponents@).contains(opponent_id@),
    {
        let mut i: usize = 0;
        while i < self.opponents.len()
            invariant
                i <= self.opponents@.len(),
                forall|j: int| 0 <= j < i ==> (#[trigger] self.opponents@[j])@ != opponent_id@,
            decreases self.opponents@.len() - i,
        {
            if str_eq(self.opponents[i].as_str(), opponent_id) {
                proof { assert(texts(self.opponents@)[i as int] == opponent_id@); }
                return true;
            }
            i = i + 1;
        }
        proof {
            assert forall|j: int| 0 <= j < texts(self.opponents@).len() implies texts(self.opponents@)[j] != opponent_id@ by {
                assert(self.opponents@[j]@ != opponent_id@);
            }
        }
        false
    }

    /// A total over this participant's match history.
    pub fn total(&self, t: Tally) -> (r: usize)
        requires
            self.wf(),
        ensures
            r == history_total(history_view(self.match_history@), t),
    {
        let ghost h = history_view(self.match_history@);
        proof {
            lemma_history_total_bounds(h, t);
        }
        let mut acc: usize = 0;
        let mut i: usize = 0;
        while i < self.match_history.len()
            invariant
                i <= h.len(),
                h == history_view(self.match_history@),
                self.wf(),
                t is Matches ==> history_total(h, t) <= h.len(),
                acc == history_total(h.subrange(0, i as int), t),
            decreases h.len() - i,
        {
            proof {
                lemma_history_sum_prefix(h, tally_fn(t), i as int);
                lemma_history_total_prefix(h, t, i + 1);
                assert(h[i as int].1 == self.match_history@[i as int].1);
            }
            let v = tally_of(&self.match_history[i].1, t);
            acc = acc + v;
            i = i + 1;
        }
        proof { assert(h.subrange(0, h.len() as int) =~= h); }
        acc
    }
}

/// The results of one round: its number (from 1), its pairings, the games
/// of each match played, under the first deck's id, and how long it took.
pub struct RoundResult {
    pub round_number: usize,
    pub pairings: Vec<Pairing>,
    pub results: Vec<(String, MatchupStats)>,
    pub duration: std::time::Duration,
}

/// `Duration::ZERO` (std): a span of no time. Nothing is stated of it:
/// a `Duration`'s contents are not visible to the proofs.
#[verifier::external_body]
fn zero_duration() -> std::time::Duration {
    std::time::Duration::ZERO
}

impl RoundResult {
    /// A round with its pairings and no results yet.
    pub fn new(round_number: usize, pairings: Vec<Pairing>) -> (r: RoundResult)
        ensures
            r.round_number == round_number,
            r.pairings == pairings,
            r.results@.len() == 0,
    {
        RoundResult { round_number, pairings, results: Vec::new(), duration: zero_duration() }
    }
}

/// The participants named by a list of pairings, in order (a bye names one).
pub open spec fn members(ps: Seq<(usize, Option<usize>)>) -> Seq<usize>
    decreases ps.len(),
{
    if ps.len() == 0 {
        Seq::empty()
    } else {
        let p = ps.last();
        match p.1 {
            Some(b) => members(ps.drop_last()).push(p.0).push(b),
            None => members(ps.drop_last()).push(p.0),
        }
    }
}

/// The participants of each pairing are among the members.
proof fn lemma_members_contain(ps: Seq<(usize, Option<usize>)>, k: int)
    requires
        0 <= k < ps.len(),
    ensures
        members(ps).contains(ps[k].0),
        ps[k].1 matches Some(b) ==> members(ps).contains(b),
    decreases ps.len(),
{
    let m = members(ps);
    let d = members(ps.drop_last());
    if k == ps.len() - 1 {
        match ps.last().1 {
            Some(b) => {
                assert(m[d.len() as int] == ps[k].0);
                assert(m[d.len() as int + 1] == b);
            },
            None => {
                assert(m[d.len() as int] == ps[k].0);
            },
        }
    } else {
        lemma_members_contain(ps.drop_last(), k);
        assert(ps.drop_last()[k] == ps[k]);
        let j = choose|j: int| 0 <= j < d.len() && d[j] == ps[k].0;
        assert(m[j] == d[j]);
        if let Some(b) = ps[k].1 {
            let j2 = choose|j2: int| 0 <= j2 < d.len() && d[j2] == b;
            assert(m[j2] == d[j2]);
        }
    }
}

/// In a Swiss round pairing over `0..n`, every participant named is below `n`.
pub proof fn lemma_pair_members_below(r: Seq<(usize, Option<usize>)>, n: usize, k: int)
    requires
        0 <= k < r.len(),
        forall|j: int| 0 <= j < members(r).len() ==> (members(r)[j] as int) < n,
    ensures
        r[k].0 < n,
        r[k].1 matches Some(b) ==> b < n,
{
    lemma_members_contain(r, k);
}

/// How many entries of `s` are false.
pub open spec fn count_false(s: Seq<bool>) -> nat
    decreases s.len(),
{
    if s.len() == 0 {
        0
    } else {
        count_false(s.drop_last()) + if s.last() { 0nat } else { 1nat }
    }
}

/// Setting a false entry to true leaves one false entry fewer.
proof fn lemma_count_false_set(s: Seq<bool>, i: int)
    requires
        0 <= i < s.len(),
        !s[i],
    ensures
        count_false(s.update(i, true)) + 1 == count_false(s),
    decreases s.len(),
{
    let t = s.update(i, true);
    if i == s.len() - 1 {
        assert(t.drop_last() =~= s.drop_last());
    } else {
        assert(t.drop_last() =~= s.drop_last().update(i, true));
        lemma_count_false_set(s.drop_last(), i);
    }
}

/// When `i` is the only false entry, exactly one entry is false.
proof fn lemma_count_false_only(s: Seq<bool>, i: int)
    requires
        0 <= i < s.len(),
        !s[i],
        forall|k: int| 0 <= k < s.len() && k != i ==> s[k],
    ensures
        count_false(s) == 1,
    decreases s.len(),
{
    let t = s.drop_last();
    if i == s.len() - 1 {
        assert forall|k: int| 0 <= k < t.len() implies t[k] by {
            assert(t[k] == s[k]);
        }
        lemma_count_false_none(t);
    } else {
        assert forall|k: int| 0 <= k < t.len() && k != i implies t[k] by {
            assert(t[k] == s[k]);
        }
        assert(t[i] == s[i]);
        lemma_count_false_only(t, i);
        assert(s.last() == s[s.len() - 1]);
    }
}

/// With every entry true, no entry is false.
proof fn lemma_count_false_none(s: Seq<bool>)
    requires
        forall|k: int| 0 <= k < s.len() ==> s[k],
    ensures
        count_false(s) == 0,
    decreases s.len(),
{
    if s.len() > 0 {
        lemma_count_false_none(s.drop_last());
    }
}

/// The participant who gets the bye: the lowest ranked one that has not had
/// one yet, or the lowest ranked of all when everyone has.
pub open spec fn bye_choice(had_bye: Seq<bool>) -> int {
    if exists|k: int| 0 <= k < had_bye.len() && !had_bye[k] {
        choose|k: int| 0 <= k < had_bye.len() && !had_bye[k] && forall|j: int| k < j < had_bye.len() ==> had_bye[j]
    } else {
        had_bye.len() - 1
    }
}

/// The last position without a bye is the bye choice.
proof fn lemma_bye_choice(had_bye: Seq<bool>, k: int)
    requires
        0 <= k < had_bye.len(),
        !had_bye[k],
        forall|j: int| k < j < had_bye.len() ==> had_bye[j],
    ensures
        bye_choice(had_bye) == k,
{
    let c = choose|c: int| 0 <= c < had_bye.len() && !had_bye[c] && forall|j: int| c < j < had_bye.len() ==> had_bye[j];
    assert(0 <= c < had_bye.len() && !had_bye[c] && forall|j: int| c < j < had_bye.len() ==> had_bye[j]);
    if c < k {
        assert(had_bye[k]);
    } else if c > k {
        assert(had_bye[c]);
    }
}

/// Participant `c` is still free before pairing `k` is made.
pub open spec fn free_before(r: Seq<(usize, Option<usize>)>, k: int, c: usize) -> bool {
    !members(r.subrange(0, k)).contains(c)
}

/// Pairing `k` (of two) was chosen greedily: its first participant is the
/// best ranked free one; its second is the best ranked free participant the
/// first has not played, or, when the first has played every free
/// participant, the best ranked free one.
pub open spec fn greedy_pair(r: Seq<(usize, Option<usize>)>, k: int, played: Seq<Vec<bool>>, n: usize) -> bool {
    let a = r[k].0;
    match r[k].1 {
        None => true,
        Some(b) => {
            &&& a < n && b < n && a != b
            &&& free_before(r, k, a) && free_before(r, k, b)
            &&& forall|c: usize| c < a ==> !#[trigger] free_before(r, k, c)
            &&& if !played[a as int]@[b as int] {
                forall|c: usize| c < b && c != a && #[trigger] free_before(r, k, c) ==> played[a as int]@[c as int]
            } else {
                &&& forall|c: usize| c < n && c != a && #[trigger] free_before(r, k, c) ==> played[a as int]@[c as int]
                &&& forall|c: usize| c < b && c != a ==> !#[trigger] free_before(r, k, c)
            }
        },
    }
}

/// The pairing of a Swiss round over ranks `0..n` (best first): everyone is
/// paired once; with an odd number, the first pairing is the bye, to the
/// lowest ranked participant without one so far (the lowest ranked of all if
/// each has had one); every other pairing was chosen greedily.
pub open spec fn swiss_pairing(r: Seq<(usize, Option<usize>)>, had_bye: Seq<bool>, played: Seq<Vec<bool>>, n: usize) -> bool {
    &&& members(r).no_duplicates()
    &&& forall|x: usize| x < n ==> #[trigger] members(r).contains(x)
    &&& forall|k: int| 0 <= k < members(r).len() ==> (members(r)[k] as int) < n
    &&& n % 2 == 1 ==> r.len() > 0 && r[0] == (bye_choice(had_bye) as usize, None::<usize>)
    &&& forall|k: int| 0 <= k < r.len() && (#[trigger] r[k]).1 is None ==> n % 2 == 1 && k == 0
    &&& forall|k: int| 0 <= k < r.len() ==> (#[trigger] r[k]).1 != Some(r[k].0)
    &&& forall|k: int| 0 <= k < r.len() ==> #[trigger] greedy_pair(r, k, played, n)
}

/// Pair a Swiss round. Participants are given by rank, best first: with an
/// odd number, the lowest ranked participant without a bye so far gets one
/// (the lowest ranked of all if each has had one). Then, best first, each
/// participant not yet paired meets the best ranked free participant it has
/// not played, or failing that the best ranked free one. `played[a][b]`
/// tells whether `a` has met `b`.
pub fn pair_ranked(n: usize, had_bye: &Vec<bool>, played: &Vec<Vec<bool>>) -> (r: Vec<(usize, Option<usize>)>)
    requires
        had_bye@.len() == n,
        played@.len() == n,
        forall|i: int| 0 <= i < n ==> (#[trigger] played@[i])@.len() == n,
    ensures
        swiss_pairing(r@, had_bye@, played@, n),
{
    let mut r: Vec<(usize, Option<usize>)> = Vec::new();
    let mut paired: Vec<bool> = Vec::new();
    let mut z: usize = 0;
    while z < n
        invariant
            z <= n,
            paired@.len() == z,
            forall|k: int| 0 <= k < z ==> !paired@[k],
        decreases n - z,
    {
        paired.push(false);
        z = z + 1;
    }
    proof {
        assert(paired@ =~= Seq::new(n as nat, |k: int| false));
        lemma_count_false_none_inverse(paired@);
    }
    if n % 2 == 1 {
        let mut b: usize = n - 1;
        let mut found = false;
        let mut k: usize = n;
        while k > 0 && !found
            invariant
                k <= n,
                n % 2 == 1,
                had_bye@.len() == n,
                !found ==> b == n - 1,
                found ==> b < n && bye_choice(had_bye@) == b,
                !found ==> forall|j: int| k <= j < n ==> had_bye@[j],
            decreases k,
        {
            k = k - 1;
            if !had_bye[k] {
                proof { lemma_bye_choice(had_bye@, k as int); }
                b = k;
                found = true;
            }
        }
        proof {
            if !found {
                assert(!exists|k: int| 0 <= k < had_bye@.len() && !had_bye@[k]);
            }
        }
        r.push((b, None));
        proof {
            lemma_count_false_set(paired@, b as int);
        }
        paired.set(b, true);
        proof {
            assert(r@.drop_last() =~= Seq::<(usize, Option<usize>)>::empty());
            assert(members(r@.drop_last()) =~= Seq::<usize>::empty());
            assert(members(r@) =~= seq![b]);
            assert forall|x: int| 0 <= x < n implies (paired@[x] <==> members(r@).contains(x as usize)) by {
                if x == b as int {
                    assert(members(r@)[0] == b);
                }
            }
            assert(greedy_pair(r@, 0, played@, n));
        }
    } else {
        proof {
            assert(members(r@) =~= Seq::<usize>::empty());
        }
    }
    let mut id: usize = 0;
    while id < n
        invariant
            id <= n,
            paired@.len() == n,
            played@.len() == n,
            forall|i: int| 0 <= i < n ==> (#[trigger] played@[i])@.len() == n,
            members(r@).no_duplicates(),
            forall|x: int| 0 <= x < n ==> (paired@[x] <==> members(r@).contains(x as usize)),
            forall|k: int| 0 <= k < members(r@).len() ==> (members(r@)[k] as int) < n,
            forall|x: int| 0 <= x < id ==> paired@[x],
            count_false(paired@) + members(r@).len() == n,
            (count_false(paired@) as int) % 2 == 0,
            n % 2 == 1 ==> r@.len() > 0 && r@[0] == (bye_choice(had_bye@) as usize, None::<usize>),
            forall|k: int| 0 <= k < r@.len() && (#[trigger] r@[k]).1 is None ==> n % 2 == 1 && k == 0,
            forall|k: int| 0 <= k < r@.len() ==> (#[trigger] r@[k]).1 != Some(r@[k].0),
            forall|k: int| 0 <= k < r@.len() ==> #[trigger] greedy_pair(r@, k, played@, n),
        decreases n - id,
    {
        if !paired[id] {
            let mut opp: usize = n;
            let mut j: usize = 0;
            while j < n
                invariant
                    j <= n,
                    id < n,
                    paired@.len() == n,
                    played@.len() == n,
                    forall|i: int| 0 <= i < n ==> (#[trigger] played@[i])@.len() == n,
                    opp == n || (opp < n && opp != id && !paired@[opp as int] && !played@[id as int]@[opp as int]),
                    opp == n ==> forall|c: int| 0 <= c < j && c != id && !paired@[c] ==> played@[id as int]@[c],
                    opp != n ==> forall|c: int| 0 <= c < opp && c != id && !paired@[c] ==> played@[id as int]@[c],
                decreases n - j,
            {
                if opp == n && j != id && !paired[j] && !played[id][j] {
                    opp = j;
                }
                j = j + 1;
            }
            if opp == n {
                let mut j2: usize = 0;
                while j2 < n
                    invariant
                        j2 <= n,
                        id < n,
                        paired@.len() == n,
                        opp == n || (opp < n && opp != id && !paired@[opp as int]),
                        opp == n ==> forall|k: int| 0 <= k < j2 && k != id ==> paired@[k],
                        opp != n ==> forall|k: int| 0 <= k < opp && k != id ==> paired@[k],
                    decreases n - j2,
                {
                    if opp == n && j2 != id && !paired[j2] {
                        opp = j2;
                    }
                    j2 = j2 + 1;
                }
                proof {
                    if opp == n {
                        lemma_count_false_only(paired@, id as int);
                    }
                }
            }
            let ghost r0 = r@;
            let ghost m0 = members(r@);
            r.push((id, Some(opp)));
            proof {
                assert(r@.drop_last() =~= r0);
                assert(members(r@) =~= m0.push(id).push(opp));
                lemma_count_false_set(paired@, id as int);
                let p1 = paired@.update(id as int, true);
                lemma_count_false_set(p1, opp as int);
                assert forall|a: int, b: int| 0 <= a < b < members(r@).len() implies members(r@)[a] != members(r@)[b] by {
                    if b == m0.len() as int {
                        assert(!m0.contains(id));
                    } else if b == m0.len() as int + 1 {
                        if a < m0.len() {
                            assert(!m0.contains(opp));
                        }
                    }
                }
                assert forall|k: int| 0 <= k < r@.len() && (#[trigger] r@[k]).1 is None implies n % 2 == 1 && k == 0 by {
                    if k < r@.len() - 1 {
                        assert(r@[k] == r@.drop_last()[k]);
                    }
                }
                assert forall|k: int| 0 <= k < r@.len() implies (#[trigger] r@[k]).1 != Some(r@[k].0) by {
                    if k < r@.len() - 1 {
                        assert(r@[k] == r@.drop_last()[k]);
                    }
                }
                if n % 2 == 1 {
                    assert(r@[0] == r@.drop_last()[0]);
                }
                let k0 = r0.len() as int;
                assert(r@.subrange(0, k0) =~= r0);
                assert forall|c: usize| c < n implies (#[trigger] free_before(r@, k0, c) <==> !paired@[c as int]) by {}
                assert(greedy_pair(r@, k0, played@, n));
                assert forall|k: int| 0 <= k < r@.len() implies #[trigger] greedy_pair(r@, k, played@, n) by {
                    if k < k0 {
                        assert(r@.subrange(0, k) =~= r0.subrange(0, k));
                        assert(r@[k] == r0[k]);
                        assert(greedy_pair(r0, k, played@, n));
                        assert forall|c: usize| #[trigger] free_before(r@, k, c) == free_before(r0, k, c) by {}
                    }
                }
            }
            paired.set(id, true);
            paired.set(opp, true);
            proof {
                assert forall|x: int| 0 <= x < n implies (paired@[x] <==> members(r@).contains(x as usize)) by {
                    if x == id as int {
                        assert(members(r@)[m0.len() as int] == id);
                    } else if x == opp as int {
                        assert(members(r@)[m0.len() as int + 1] == opp);
                    } else {
                        if members(r@).contains(x as usize) {
                            let k = choose|k: int| 0 <= k < members(r@).len() && members(r@)[k] == x as usize;
                            assert(k < m0.len());
                            assert(m0[k] == x as usize);
                        }
                        if m0.contains(x as usize) {
                            let k = choose|k: int| 0 <= k < m0.len() && m0[k] == x as usize;
                            assert(members(r@)[k] == x as usize);
                        }
                    }
                }
            }
        }
        id = id + 1;
    }
    proof {
        assert forall|x: usize| x < n implies #[trigger] members(r@).contains(x) by {
            assert(paired@[x as int]);
        }
    }
    r
}

/// A list that is all false has as many false entries as entries.
proof fn lemma_count_false_none_inverse(s: Seq<bool>)
    requires
        forall|k: int| 0 <= k < s.len() ==> !s[k],
    ensures
        count_false(s) == s.len(),
    decreases s.len(),
{
    if s.len() > 0 {
        lemma_count_false_none_inverse(s.drop_last());
    }
}

} // verus!
