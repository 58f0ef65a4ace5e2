//! A Swiss tournament between the decks of a registry: the field ordered by
//! deck id, pairings by ranking, byes and match results recorded round by
//! round, and the standings.

use vstd::prelude::*;
use crate::arena::ranking::{RankKey, is_ranking, rank_order};
use crate::arena::tournament::{
    MatchOutcome, MatchupStats, Pairing, Participant, RoundResult, SwissConfig, Tally, TournamentMatchResult,
    history_record, history_total, history_totals_fit, history_view, pair_ranked, record_fits, recorded, result_points,
    swiss_pairing, texts,
};
use crate::arena::deck_utils::faction_name;
use crate::decks::{DeckDefinition, DeckRegistry, copy_of, deck_values, faction_decks, tags_faction};
use crate::gamecore::cards::CardDatabase;
use crate::gamecore::types::CardId;
use crate::gamecore::text::{
    lemma_text_asymmetric, lemma_text_irreflexive, lemma_text_total_distinct, lemma_text_transitive, str_eq, str_less,
    text_less,
};

verus! {

/// Ordering by text is a strict weak order: transitive, and so is being
/// equal or after.
proof fn lemma_text_weak(a: Seq<char>, b: Seq<char>, c: Seq<char>)
    ensures
        !text_less(a, a),
        text_less(a, b) ==> !text_less(b, a),
        text_less(a, b) && text_less(b, c) ==> text_less(a, c),
        !text_less(b, a) && !text_less(c, b) ==> !text_less(c, a),
{
    lemma_text_irreflexive(a, 0);
    lemma_text_asymmetric(a, b, 0);
    lemma_text_asymmetric(c, a, 0);
    lemma_text_transitive(a, b, c, 0);
    if a != b {
        lemma_text_total_distinct(a, b);
    }
    if b != c {
        lemma_text_total_distinct(b, c);
    }
}

/// `order` lists positions `0..n` once each, by id text, equal ids in their
/// given order.
pub open spec fn is_id_order(ids: Seq<Seq<char>>, order: Seq<usize>) -> bool {
    &&& order.len() == ids.len()
    &&& order.no_duplicates()
    &&& forall|i: int| 0 <= i < order.len() ==> (#[trigger] order[i] as int) < ids.len()
    &&& forall|i: int, j: int| 0 <= i < j < order.len() ==>
            !text_less(ids[#[trigger] order[j] as int], ids[#[trigger] order[i] as int])
    &&& forall|i: int, j: int| 0 <= i < j < order.len() && !text_less(ids[#[trigger] order[i] as int], ids[#[trigger] order[j] as int])
            ==> order[i] < order[j]
}

/// The ids of a list of decks.
pub open spec fn deck_ids(ds: Seq<DeckDefinition>) -> Seq<Seq<char>> {
    ds.map_values(|d: DeckDefinition| d.id@)
}

/// Order the decks by id (a stable sort); returns their positions.
fn order_by_id(decks: &Vec<&DeckDefinition>) -> (r: Vec<usize>)
    ensures
        is_id_order(deck_ids(deck_values(decks@)), r@),
{
    let ghost ids = deck_ids(deck_values(decks@));
    let n = decks.len();
    let mut order: Vec<usize> = Vec::new();
    let mut k: usize = 0;
    while k < n
        invariant
            k <= n,
            n == decks@.len(),
            ids == deck_ids(deck_values(decks@)),
            order@.len() == k,
            order@.no_duplicates(),
            forall|i: int| 0 <= i < order@.len() ==> (#[trigger] order@[i] as int) < k,
            forall|i: int, j: int| 0 <= i < j < order@.len() ==>
                !text_less(ids[#[trigger] order@[j] as int], ids[#[trigger] order@[i] as int]),
            forall|i: int, j: int| 0 <= i < j < order@.len() && !text_less(ids[#[trigger] order@[i] as int], ids[#[trigger] order@[j] as int])
                ==> order@[i] < order@[j],
        decreases n - k,
    {
        let mut p: usize = order.len();
        while p > 0 && str_less(decks[k].id.as_str(), decks[order[p - 1]].id.as_str())
            invariant
                p <= order@.len(),
                k < n,
                n == decks@.len(),
                ids == deck_ids(deck_values(decks@)),
                forall|i: int| 0 <= i < order@.len() ==> (#[trigger] order@[i] as int) < k,
                forall|q: int| p <= q < order@.len() ==> text_less(ids[k as int], ids[#[trigger] order@[q] as int]),
            decreases p,
        {
            proof {
                assert(ids[k as int] == decks@[k as int].id@);
                assert(ids[order@[p - 1] as int] == decks@[order@[p - 1] as int].id@);
            }
            p = p - 1;
        }
        let ghost before = order@;
        let ghost kk = ids[k as int];
        proof {
            if p > 0 {
                assert(ids[k as int] == decks@[k as int].id@);
                assert(ids[before[p - 1] as int] == decks@[before[p - 1] as int].id@);
                assert(!text_less(kk, ids[before[p - 1] as int]));
            }
        }
        order.insert(p, k);
        proof {
            let o = order@;
            assert(o == before.insert(p as int, k));
            assert forall|i: int| 0 <= i < o.len() implies (#[trigger] o[i] as int) < k + 1 by {
                if i < p { assert(o[i] == before[i]); } else if i > p { assert(o[i] == before[i - 1]); }
            }
            assert forall|i: int, j: int| 0 <= i < j < o.len() implies o[i] != o[j] by {
                if i < p && j > p {
                    assert(o[i] == before[i] && o[j] == before[j - 1]);
                } else if i < p && j < p {
                    assert(o[i] == before[i] && o[j] == before[j]);
                } else if i > p {
                    assert(o[i] == before[i - 1] && o[j] == before[j - 1]);
                } else if i == p {
                    assert(o[j] == before[j - 1]);
                } else {
                    assert(o[i] == before[i]);
                }
            }
            assert forall|i: int, j: int| 0 <= i < j < o.len() implies
                !text_less(ids[#[trigger] o[j] as int], ids[#[trigger] o[i] as int]) by {
                if i < p && j < p {
                    assert(o[i] == before[i] && o[j] == before[j]);
                } else if i > p {
                    assert(o[i] == before[i - 1] && o[j] == before[j - 1]);
                } else if i < p && j > p {
                    assert(o[i] == before[i] && o[j] == before[j - 1]);
                } else if i == p {
                    assert(o[j] == before[j - 1]);
                    lemma_text_weak(kk, ids[o[j] as int], kk);
                } else {
                    assert(o[i] == before[i]);
                    if i < p - 1 {
                        lemma_text_weak(ids[before[i] as int], ids[before[p - 1] as int], kk);
                    }
                }
            }
            assert forall|i: int, j: int| 0 <= i < j < o.len() && !text_less(ids[#[trigger] o[i] as int], ids[#[trigger] o[j] as int])
                implies o[i] < o[j] by {
                if i < p && j < p {
                    assert(o[i] == before[i] && o[j] == before[j]);
                } else if i > p {
                    assert(o[i] == before[i - 1] && o[j] == before[j - 1]);
                } else if i < p && j > p {
                    assert(o[i] == before[i] && o[j] == before[j - 1]);
                } else if i == p {
                    assert(o[j] == before[j - 1]);
                } else {
                    assert(o[i] == before[i]);
                }
            }
        }
        k = k + 1;
    }
    order
}

/// The decks of a registry that take part: those of the faction when one
/// is set, else all, in registry order.
pub open spec fn field_of(ds: Seq<DeckDefinition>, filter: Option<crate::gamecore::cards::Faction>) -> Seq<DeckDefinition> {
    match filter {
        Some(f) => faction_decks(ds, f),
        None => ds,
    }
}

/// A participant entered with this deck, before any match.
pub open spec fn entered_with(p: Participant, d: DeckDefinition) -> bool {
    &&& p.wf()
    &&& p.deck_id == d.id
    &&& copy_of(p.deck, d)
    &&& p.score == 0
    &&& p.opponents@.len() == 0
    &&& p.match_history@.len() == 0
}

/// The participants entered with the decks of `field`, ordered by id as
/// `order` gives.
pub open spec fn entered_in_order(ps: Seq<Participant>, field: Seq<DeckDefinition>, order: Seq<usize>) -> bool {
    &&& is_id_order(deck_ids(field), order)
    &&& ps.len() == field.len()
    &&& forall|i: int| 0 <= i < field.len() ==> entered_with(#[trigger] ps[i], field[order[i] as int])
}

/// The position of the first participant at or after `i` with this deck
/// id, or -1.
pub open spec fn participant_index_from(ps: Seq<Participant>, id: Seq<char>, i: int) -> int
    decreases ps.len() - i,
{
    if i < 0 || i >= ps.len() {
        -1
    } else if ps[i].deck_id@ == id {
        i
    } else {
        participant_index_from(ps, id, i + 1)
    }
}

proof fn lemma_participant_index(ps: Seq<Participant>, id: Seq<char>, i: int)
    requires
        0 <= i,
    ensures
        participant_index_from(ps, id, i) == -1 || (i <= participant_index_from(ps, id, i) < ps.len()
            && ps[participant_index_from(ps, id, i)].deck_id@ == id),
    decreases ps.len() - i,
{
    if i < ps.len() && ps[i].deck_id@ != id {
        lemma_participant_index(ps, id, i + 1);
    }
}

/// The match points of the participant with this id, or 0 if there is none.
pub open spec fn score_of(ps: Seq<Participant>, id: Seq<char>) -> int {
    let k = participant_index_from(ps, id, 0);
    if k < 0 { 0 } else { ps[k].score as int }
}

/// The sum of the match points of the opponents listed.
pub open spec fn opponents_points(ps: Seq<Participant>, opps: Seq<Seq<char>>) -> int
    decreases opps.len(),
{
    if opps.len() == 0 { 0 } else { opponents_points(ps, opps.drop_last()) + score_of(ps, opps.last()) }
}

/// The Buchholz score of the participant with this id (the sum of its
/// opponents' match points, an opponent counted once per meeting), or 0 if
/// there is none.
pub open spec fn buchholz_of(ps: Seq<Participant>, id: Seq<char>) -> int {
    let k = participant_index_from(ps, id, 0);
    if k < 0 { 0 } else { opponents_points(ps, texts(ps[k].opponents@)) }
}

/// What each participant is ranked by.
pub open spec fn rank_keys(ps: Seq<Participant>) -> Seq<RankKey> {
    Seq::new(ps.len(), |i: int| RankKey {
        score: ps[i].score,
        buchholz: buchholz_of(ps, ps[i].deck_id@) as u128,
        wins: history_total(history_view(ps[i].match_history@), Tally::Wins) as usize,
        games: history_total(history_view(ps[i].match_history@), Tally::Games) as usize,
    })
}

/// Whether each participant, taken by rank, has had a bye.
pub open spec fn byes_by_rank(ps: Seq<Participant>, byes: Seq<Seq<char>>, order: Seq<usize>) -> Seq<bool> {
    Seq::new(order.len(), |k: int| byes.contains(ps[order[k] as int].deck_id@))
}

/// `played[a][b]` tells whether the participant ranked `a` has met the one
/// ranked `b`.
pub open spec fn met_by_rank(ps: Seq<Participant>, order: Seq<usize>, played: Seq<Vec<bool>>) -> bool {
    &&& played.len() == order.len()
    &&& forall|a: int| 0 <= a < order.len() ==> (#[trigger] played[a])@.len() == order.len()
    &&& forall|a: int, b: int| #![trigger played[a]@[b]] 0 <= a < order.len() && 0 <= b < order.len() ==>
            played[a]@[b] == texts(ps[order[a] as int].opponents@).contains(ps[order[b] as int].deck_id@)
}

/// The pairings name, by deck id, the participants that the rank pairs give.
pub open spec fn names_pairs(ps: Seq<Participant>, order: Seq<usize>, pairs: Seq<(usize, Option<usize>)>, r: Seq<Pairing>) -> bool {
    &&& r.len() == pairs.len()
    &&& forall|k: int| 0 <= k < r.len() ==> {
        &&& (#[trigger] r[k]).player1_id@ == ps[order[pairs[k].0 as int] as int].deck_id@
        &&& match pairs[k].1 {
            Some(b) => r[k].player2_id matches Some(id) && id@ == ps[order[b as int] as int].deck_id@,
            None => r[k].player2_id is None,
        }
    }
}

/// The pairings of the next round: the participants are ranked (points,
/// then Buchholz, then win rate, ties in their fixed order), and paired by
/// rank as a Swiss round pairs them.
pub open spec fn next_round_pairings(ps: Seq<Participant>, byes: Seq<Seq<char>>, r: Seq<Pairing>) -> bool {
    exists|order: Seq<usize>, pairs: Seq<(usize, Option<usize>)>, played: Seq<Vec<bool>>|
        #[trigger] ranked_and_paired(ps, byes, order, pairs, played, r)
}

/// One witness of `next_round_pairings`.
pub open spec fn ranked_and_paired(ps: Seq<Participant>, byes: Seq<Seq<char>>, order: Seq<usize>,
    pairs: Seq<(usize, Option<usize>)>, played: Seq<Vec<bool>>, r: Seq<Pairing>) -> bool
{
    &&& is_ranking(rank_keys(ps), order)
    &&& met_by_rank(ps, order, played)
    &&& swiss_pairing(pairs, byes_by_rank(ps, byes, order), played, ps.len() as usize)
    &&& names_pairs(ps, order, pairs, r)
}

/// One line of the standings: rank (from 1), the deck, its commander's
/// name ("Unknown" when not in the database), its faction's name ("Unknown"
/// when its tags name none), match points, Buchholz score, games won, lost
/// and drawn, and matches won, lost and drawn.
#[derive(Clone, Debug)]
pub struct Standing {
    pub rank: usize,
    pub deck_id: String,
    pub deck_name: String,
    pub commander_name: String,
    pub faction: String,
    pub score: u32,
    pub buchholz: u128,
    pub games_won: usize,
    pub games_lost: usize,
    pub games_drawn: usize,
    pub match_wins: usize,
    pub match_losses: usize,
    pub match_draws: usize,
}

/// The standing of participant `p` (of the field `ps`) at `rank`.
pub open spec fn standing_of(st: Standing, ps: Seq<Participant>, p: Participant, rank: int, db: CardDatabase) -> bool {
    let h = history_view(p.match_history@);
    &&& st.rank == rank
    &&& st.deck_id@ == p.deck_id@
    &&& st.deck_name@ == p.deck.name@
    &&& st.commander_name@ == (match db.spec_get_commander(CardId(p.deck.commander)) {
            Some(c) => c.name@,
            None => "Unknown"@,
        })
    &&& st.faction@ == (match tags_faction(p.deck.tags@.map_values(|t: String| t@)) {
            Some(f) => faction_name(f),
            None => "Unknown"@,
        })
    &&& st.score == p.score
    &&& st.buchholz == buchholz_of(ps, p.deck_id@)
    &&& st.games_won == history_total(h, Tally::Wins)
    &&& st.games_lost == history_total(h, Tally::Losses)
    &&& st.games_drawn == history_total(h, Tally::Draws)
    &&& st.match_wins == history_total(h, Tally::Matches(TournamentMatchResult::Win))
    &&& st.match_losses == history_total(h, Tally::Matches(TournamentMatchResult::Loss))
    &&& st.match_draws == history_total(h, Tally::Matches(TournamentMatchResult::Draw))
}

/// The standings list the participants ranked as `order` gives.
pub open spec fn standings_in_order(r: Seq<Standing>, ps: Seq<Participant>, order: Seq<usize>, db: CardDatabase) -> bool {
    &&& is_ranking(rank_keys(ps), order)
    &&& r.len() == ps.len()
    &&& forall|i: int| 0 <= i < r.len() ==> standing_of(#[trigger] r[i], ps, ps[order[i] as int], i + 1, db)
}

/// A Swiss tournament in progress: its configuration, its participants
/// (ordered by deck id), the rounds played and the decks that had a bye.
pub struct SwissTournament {
    config: SwissConfig,
    participants: Vec<Participant>,
    rounds: Vec<RoundResult>,
    bye_recipients: Vec<String>,
}

impl SwissTournament {
    /// The configuration.
    pub closed spec fn spec_config(&self) -> SwissConfig {
        self.config
    }

    /// The participants, in their fixed order.
    pub closed spec fn spec_participants(&self) -> Seq<Participant> {
        self.participants@
    }

    /// The rounds recorded so far.
    pub closed spec fn spec_rounds(&self) -> Seq<RoundResult> {
        self.rounds@
    }

    /// The ids of the decks that had a bye, in order.
    pub closed spec fn spec_byes(&self) -> Seq<Seq<char>> {
        texts(self.bye_recipients@)
    }

    /// Every participant is well formed.
    pub open spec fn wf(&self) -> bool {
        forall|i: int| 0 <= i < self.spec_participants().len() ==> (#[trigger] self.spec_participants()[i]).wf()
    }

    /// A tournament between the decks of the registry (those of the
    /// configured faction, if any), ordered by deck id, before any round.
    pub fn new(registry: &DeckRegistry, config: SwissConfig) -> (r: SwissTournament)
        ensures
            r.wf(),
            r.spec_config() == config,
            r.spec_rounds().len() == 0,
            r.spec_byes().len() == 0,
            exists|order: Seq<usize>| #[trigger] entered_in_order(r.spec_participants(),
                field_of(registry.spec_decks(), config.faction_filter), order),
    {
        let ghost field = field_of(registry.spec_decks(), config.faction_filter);
        let decks: Vec<&DeckDefinition> = match config.faction_filter {
            Some(f) => registry.decks_for_faction(f),
            None => {
                let all = registry.decks();
                let mut out: Vec<&DeckDefinition> = Vec::new();
                let mut i: usize = 0;
                while i < all.len()
                    invariant
                        i <= all@.len(),
                        out@.len() == i,
                        forall|j: int| 0 <= j < i ==> *(#[trigger] out@[j]) == all@[j],
                    decreases all@.len() - i,
                {
                    out.push(&all[i]);
                    i = i + 1;
                }
                proof {
                    assert forall|j: int| 0 <= j < all@.len() implies #[trigger] deck_values(out@)[j] == all@[j] by {
                        assert(*out@[j] == all@[j]);
                    }
                    assert(deck_values(out@) =~= all@);
                }
                out
            },
        };
        proof { assert(deck_values(decks@) == field); }
        let order = order_by_id(&decks);
        let mut participants: Vec<Participant> = Vec::new();
        let mut i: usize = 0;
        while i < order.len()
            invariant
                i <= order@.len(),
                deck_values(decks@) == field,
                is_id_order(deck_ids(field), order@),
                participants@.len() == i,
                forall|j: int| 0 <= j < i ==> entered_with(#[trigger] participants@[j], field[order@[j] as int]),
            decreases order@.len() - i,
        {
            let d = decks[order[i]].duplicate();
            proof { assert(field[order@[i as int] as int] == *decks@[order@[i as int] as int]); }
            participants.push(Participant::new(d));
            i = i + 1;
        }
        let r = SwissTournament { config, participants, rounds: Vec::new(), bye_recipients: Vec::new() };
        proof {
            assert(texts(r.bye_recipients@) =~= Seq::empty());
            assert(r.spec_participants() == participants@);
            assert(entered_in_order(r.spec_participants(), field, order@));
        }
        r
    }

    /// The position of the participant with this deck id (the first), if any.
    fn find(&self, id: &str) -> (r: Option<usize>)
        ensures
            match r {
                None => participant_index_from(self.spec_participants(), id@, 0) == -1,
                Some(k) => k == participant_index_from(self.spec_participants(), id@, 0) && k < self.spec_participants().len(),
            },
    {
        let ghost ps = self.participants@;
        proof { lemma_participant_index(ps, id@, 0); }
        let mut i: usize = 0;
        while i < self.participants.len()
            invariant
                i <= ps.len(),
                ps == self.participants@,
                participant_index_from(ps, id@, 0) == participant_index_from(ps, id@, i as int),
            decreases ps.len() - i,
        {
            if str_eq(self.participants[i].deck_id.as_str(), id) {
                return Some(i);
            }
            i = i + 1;
        }
        None
    }

    /// The match points of the participant with this id, or 0.
    fn score_of(&self, id: &str) -> (r: u32)
        ensures
            r == score_of(self.spec_participants(), id@),
    {
        match self.find(id) {
            Some(k) => self.participants[k].score,
            None => 0,
        }
    }

    /// The Buchholz score of the participant with this deck id: the sum of
    /// its opponents' match points (0 when there is no such participant).
    pub fn buchholz_score(&self, deck_id: &str) -> (r: u128)
        ensures
            r == buchholz_of(self.spec_participants(), deck_id@),
    {
        let ghost ps = self.participants@;
        match self.find(deck_id) {
            None => 0,
            Some(k) => {
                let opps = &self.participants[k].opponents;
                let ghost os = texts(opps@);
                let mut acc: u128 = 0;
                let mut i: usize = 0;
                while i < opps.len()
                    invariant
                        i <= opps@.len(),
                        os == texts(opps@),
                        ps == self.participants@,
                        acc == opponents_points(ps, os.subrange(0, i as int)),
                        acc <= i * 0xffff_ffffu128,
                    decreases opps@.len() - i,
                {
                    proof { assert(os.subrange(0, i + 1).drop_last() =~= os.subrange(0, i as int)); }
                    let p = self.score_of(opps[i].as_str());
                    proof {
                        assert(i < 0x1_0000_0000_0000_0000u128);
                        assert(acc + p <= (i + 1) * 0xffff_ffffu128) by (nonlinear_arith)
                            requires
                                acc <= i * 0xffff_ffffu128,
                                p <= 0xffff_ffffu128,
                        ;
                        assert((i + 1) * 0xffff_ffffu128 <= 0x1_0000_0000_0000_0000u128 * 0xffff_ffffu128) by (nonlinear_arith)
                            requires
                                i < 0x1_0000_0000_0000_0000u128,
                        ;
                    }
                    acc = acc + p as u128;
                    i = i + 1;
                }
                proof { assert(os.subrange(0, os.len() as int) =~= os); }
                acc
            },
        }
    }

    /// Whether the deck with this id has had a bye.
    fn had_bye(&self, id: &str) -> (r: bool)
        ensures
            r == self.spec_byes().contains(id@),
    {
        let mut i: usize = 0;
        while i < self.bye_recipients.len()
            invariant
                i <= self.bye_recipients@.len(),
                forall|j: int| 0 <= j < i ==> (#[trigger] self.bye_recipients@[j])@ != id@,
            decreases self.bye_recipients@.len() - i,
        {
            if str_eq(self.bye_recipients[i].as_str(), id) {
                proof { assert(self.spec_byes()[i as int] == id@); }
                return true;
            }
            i = i + 1;
        }
        proof {
            assert forall|j: int| 0 <= j < self.spec_byes().len() implies self.spec_byes()[j] != id@ by {
                assert(self.bye_recipients@[j]@ != id@);
            }
        }
        false
    }

    /// The pairings of the next round. Participants are ranked by match
    /// points, then Buchholz score, then game win rate (one half with no
    /// games), best first, ties in their fixed order. With an odd number the
    /// lowest ranked deck without a bye so far gets one (the lowest ranked
    /// of all when each has had one); then, best first, each deck not yet
    /// paired meets the best ranked free deck it has not met, or failing
    /// that the best ranked free one.
    pub fn generate_pairings(&self) -> (r: Vec<Pairing>)
        requires
            self.wf(),
        ensures
            next_round_pairings(self.spec_participants(), self.spec_byes(), r@),
    {
        let ghost ps = self.participants@;
        let n = self.participants.len();
        let mut keys: Vec<RankKey> = Vec::new();
        let mut i: usize = 0;
        while i < n
            invariant
                i <= n,
                n == ps.len(),
                ps == self.participants@,
                self.wf(),
                keys@.len() == i,
                forall|j: int| 0 <= j < i ==> #[trigger] keys@[j] == rank_keys(ps)[j],
            decreases n - i,
        {
            let p = &self.participants[i];
            proof { assert(self.spec_participants()[i as int].wf()); }
            let key = RankKey {
                score: p.score,
                buchholz: self.buchholz_score(p.deck_id.as_str()),
                wins: p.total(Tally::Wins),
                games: p.total(Tally::Games),
            };
            keys.push(key);
            i = i + 1;
        }
        proof { assert(keys@ =~= rank_keys(ps)); }
        let order = rank_order(&keys);
        let mut had_bye: Vec<bool> = Vec::new();
        let mut k: usize = 0;
        while k < n
            invariant
                k <= n,
                n == ps.len(),
                ps == self.participants@,
                is_ranking(rank_keys(ps), order@),
                had_bye@.len() == k,
                forall|j: int| 0 <= j < k ==> #[trigger] had_bye@[j] == byes_by_rank(ps, self.spec_byes(), order@)[j],
            decreases n - k,
        {
            let b = self.had_bye(self.participants[order[k]].deck_id.as_str());
            had_bye.push(b);
            k = k + 1;
        }
        proof { assert(had_bye@ =~= byes_by_rank(ps, self.spec_byes(), order@)); }
        let mut played: Vec<Vec<bool>> = Vec::new();
        let mut a: usize = 0;
        while a < n
            invariant
                a <= n,
                n == ps.len(),
                ps == self.participants@,
                is_ranking(rank_keys(ps), order@),
                played@.len() == a,
                forall|x: int| 0 <= x < a ==> (#[trigger] played@[x])@.len() == n,
                forall|x: int, y: int| #![trigger played@[x]@[y]] 0 <= x < a && 0 <= y < n ==>
                    played@[x]@[y] == texts(ps[order@[x] as int].opponents@).contains(ps[order@[y] as int].deck_id@),
            decreases n - a,
        {
            let mut row: Vec<bool> = Vec::new();
            let mut b: usize = 0;
            while b < n
                invariant
                    a < n,
                    b <= n,
                    n == ps.len(),
                    ps == self.participants@,
                    is_ranking(rank_keys(ps), order@),
                    row@.len() == b,
                    forall|y: int| 0 <= y < b ==>
                        #[trigger] row@[y] == texts(ps[order@[a as int] as int].opponents@).contains(ps[order@[y] as int].deck_id@),
                decreases n - b,
            {
                let m = self.participants[order[a]].has_played(self.participants[order[b]].deck_id.as_str());
                row.push(m);
                b = b + 1;
            }
            played.push(row);
            proof {
                assert forall|x: int, y: int| #![trigger played@[x]@[y]] 0 <= x < a + 1 && 0 <= y < n implies
                    played@[x]@[y] == texts(ps[order@[x] as int].opponents@).contains(ps[order@[y] as int].deck_id@) by {
                    if x == a {
                        assert(played@[x] == row);
                    }
                }
            }
            a = a + 1;
        }
        let pairs = pair_ranked(n, &had_bye, &played);
        let mut r: Vec<Pairing> = Vec::new();
        let mut k2: usize = 0;
        while k2 < pairs.len()
            invariant
                k2 <= pairs@.len(),
                n == ps.len(),
                ps == self.participants@,
                is_ranking(rank_keys(ps), order@),
                swiss_pairing(pairs@, had_bye@, played@, n),
                r@.len() == k2,
                forall|j: int| 0 <= j < k2 ==> {
                    &&& (#[trigger] r@[j]).player1_id@ == ps[order@[pairs@[j].0 as int] as int].deck_id@
                    &&& match pairs@[j].1 {
                        Some(b) => r@[j].player2_id matches Some(id) && id@ == ps[order@[b as int] as int].deck_id@,
                        None => r@[j].player2_id is None,
                    }
                },
            decreases pairs@.len() - k2,
        {
            let (x, y) = pairs[k2];
            proof {
                crate::arena::tournament::lemma_pair_members_below(pairs@, n, k2 as int);
            }
            let id1 = self.participants[order[x]].deck_id.clone();
            let p = match y {
                Some(z) => Pairing::new(id1, self.participants[order[z]].deck_id.clone()),
                None => Pairing::bye(id1),
            };
            r.push(p);
            k2 = k2 + 1;
        }
        proof {
            assert(ranked_and_paired(ps, self.spec_byes(), order@, pairs@, played@, r@));
        }
        r
    }

    /// The configuration.
    pub fn config(&self) -> (r: &SwissConfig)
        ensures
            *r == self.spec_config(),
    {
        &self.config
    }

    /// The participants, in their fixed order (by deck id).
    pub fn participants(&self) -> (r: &Vec<Participant>)
        ensures
            r@ == self.spec_participants(),
    {
        &self.participants
    }

    /// The rounds recorded so far.
    pub fn rounds(&self) -> (r: &Vec<RoundResult>)
        ensures
            r@ == self.spec_rounds(),
    {
        &self.rounds
    }

    /// Award a bye to the deck with this id: its participant gains the three
    /// points of a match win, and the deck joins those that had a bye. Returns
    /// false, changing nothing, when the points would not fit in a `u32`.
    pub fn record_bye(&mut self, deck_id: &str) -> (r: bool)
        requires
            old(self).wf(),
        ensures
            final(self).wf(),
            final(self).spec_config() == old(self).spec_config(),
            final(self).spec_rounds() == old(self).spec_rounds(),
            ({
                let ps = old(self).spec_participants();
                let k = participant_index_from(ps, deck_id@, 0);
                &&& r == (k < 0 || ps[k].score + 3 <= u32::MAX)
                &&& !r ==> final(self).spec_participants() == ps && final(self).spec_byes() == old(self).spec_byes()
                &&& r ==> final(self).spec_participants() == (if k < 0 { ps } else {
                        ps.update(k, Participant { score: (ps[k].score + 3) as u32, ..ps[k] }) })
                &&& r ==> final(self).spec_byes() == (if old(self).spec_byes().contains(deck_id@) { old(self).spec_byes() }
                        else { old(self).spec_byes().push(deck_id@) })
            }),
    {
        let ghost ps = self.participants@;
        let ghost b0 = self.bye_recipients@;
        let at = self.find(deck_id);
        if let Some(k) = at {
            if self.participants[k].score > u32::MAX - 3 {
                return false;
            }
            let s = self.participants[k].score + 3;
            self.participants[k].score = s;
            proof {
                assert(self.participants@ =~= ps.update(k as int, Participant { score: s, ..ps[k as int] }));
                assert forall|i: int| 0 <= i < self.spec_participants().len() implies (#[trigger] self.spec_participants()[i]).wf() by {
                    assert(ps[i].wf());
                }
            }
        }
        if !self.had_bye(deck_id) {
            self.bye_recipients.push(String::from_str(deck_id));
            proof { assert(texts(self.bye_recipients@) =~= texts(b0).push(deck_id@)); }
        }
        true
    }

    /// Record a match between the decks `player1_id` and `player2_id`: the
    /// first records its outcome of `stats` against the second, the second
    /// the inverse against the first (a deck without participant records
    /// nothing). Returns false, changing nothing, when the two ids are the
    /// same or a record would not fit (points in a `u32`, game totals in a
    /// `usize`).
    pub fn record_result(&mut self, player1_id: &str, player2_id: &str, stats: &MatchupStats) -> (r: bool)
        requires
            old(self).wf(),
        ensures
            final(self).wf(),
            final(self).spec_config() == old(self).spec_config(),
            final(self).spec_rounds() == old(self).spec_rounds(),
            final(self).spec_byes() == old(self).spec_byes(),
            ({
                let ps = old(self).spec_participants();
                let qs = final(self).spec_participants();
                let k1 = participant_index_from(ps, player1_id@, 0);
                let k2 = participant_index_from(ps, player2_id@, 0);
                let o1 = MatchOutcome::spec_from_stats(*stats, true);
                let o2 = o1.spec_inverse();
                &&& r == (player1_id@ != player2_id@ && (k1 < 0 || record_fits(ps[k1], player2_id@, o1))
                        && (k2 < 0 || record_fits(ps[k2], player1_id@, o2)))
                &&& !r ==> qs == ps
                &&& r ==> qs.len() == ps.len()
                &&& r ==> forall|i: int| 0 <= i < ps.len() && i != k1 && i != k2 ==> #[trigger] qs[i] == ps[i]
                &&& r && k1 >= 0 ==> recorded(ps[k1], qs[k1], player2_id@, o1)
                &&& r && k2 >= 0 ==> recorded(ps[k2], qs[k2], player1_id@, o2)
            }),
    {
        let ghost ps = self.participants@;
        proof {
            lemma_participant_index(ps, player1_id@, 0);
            lemma_participant_index(ps, player2_id@, 0);
        }
        if str_eq(player1_id, player2_id) {
            return false;
        }
        let o1 = MatchOutcome::from_stats(stats, true);
        let o2 = o1.inverse();
        let a1 = self.find(player1_id);
        let a2 = self.find(player2_id);
        if let Some(k) = a1 {
            proof { assert(self.spec_participants()[k as int].wf()); }
            if !self.participants[k].can_record(player2_id, &o1) {
                return false;
            }
        }
        if let Some(k) = a2 {
            proof { assert(self.spec_participants()[k as int].wf()); }
            if !self.participants[k].can_record(player1_id, &o2) {
                return false;
            }
        }
        if let Some(k) = a1 {
            proof { assert(self.spec_participants()[k as int].wf()); }
            self.participants[k].record_match(player2_id, o1);
        }
        let ghost mid = self.participants@;
        if let Some(k) = a2 {
            proof {
                if a1 is Some {
                    assert(a1->0 != k);
                }
                assert(mid[k as int] == ps[k as int]);
                assert(self.spec_participants()[k as int].wf());
            }
            self.participants[k].record_match(player1_id, o2);
        }
        proof {
            assert forall|i: int| 0 <= i < self.spec_participants().len() implies (#[trigger] self.spec_participants()[i]).wf() by {
                assert(ps[i].wf());
            }
        }
        true
    }

    /// The standings: participants ranked by match points, then Buchholz
    /// score, then game win rate, best first (ties in their fixed order),
    /// each with its totals.
    pub fn compute_standings(&self, card_db: &CardDatabase) -> (r: Vec<Standing>)
        requires
            self.wf(),
        ensures
            exists|order: Seq<usize>| #[trigger] standings_in_order(r@, self.spec_participants(), order, *card_db),
    {
        let ghost ps = self.participants@;
        let n = self.participants.len();
        let mut keys: Vec<RankKey> = Vec::new();
        let mut i: usize = 0;
        while i < n
            invariant
                i <= n,
                n == ps.len(),
                ps == self.participants@,
                self.wf(),
                keys@.len() == i,
                forall|j: int| 0 <= j < i ==> #[trigger] keys@[j] == rank_keys(ps)[j],
            decreases n - i,
        {
            let p = &self.participants[i];
            proof { assert(self.spec_participants()[i as int].wf()); }
            let key = RankKey {
                score: p.score,
                buchholz: self.buchholz_score(p.deck_id.as_str()),
                wins: p.total(Tally::Wins),
                games: p.total(Tally::Games),
            };
            keys.push(key);
            i = i + 1;
        }
        proof { assert(keys@ =~= rank_keys(ps)); }
        let order = rank_order(&keys);
        let mut out: Vec<Standing> = Vec::new();
        let mut k: usize = 0;
        while k < n
            invariant
                k <= n,
                n == ps.len(),
                ps == self.participants@,
                self.wf(),
                is_ranking(rank_keys(ps), order@),
                out@.len() == k,
                forall|j: int| 0 <= j < k ==> standing_of(#[trigger] out@[j], ps, ps[order@[j] as int], j + 1, *card_db),
            decreases n - k,
        {
            let p = &self.participants[order[k]];
            proof { assert(self.spec_participants()[order@[k as int] as int].wf()); }
            let commander_name = match card_db.get_commander(CardId(p.deck.commander)) {
                Some(c) => c.name.clone(),
                None => String::from_str("Unknown"),
            };
            let faction = match p.deck.faction() {
                Some(f) => String::from_str(f.display_name()),
                None => String::from_str("Unknown"),
            };
            let st = Standing {
                rank: k + 1,
                deck_id: p.deck_id.clone(),
                deck_name: p.deck.name.clone(),
                commander_name,
                faction,
                score: p.score,
                buchholz: self.buchholz_score(p.deck_id.as_str()),
                games_won: p.total(Tally::Wins),
                games_lost: p.total(Tally::Losses),
                games_drawn: p.total(Tally::Draws),
                match_wins: p.total(Tally::Matches(TournamentMatchResult::Win)),
                match_losses: p.total(Tally::Matches(TournamentMatchResult::Loss)),
                match_draws: p.total(Tally::Matches(TournamentMatchResult::Draw)),
            };
            out.push(st);
            k = k + 1;
        }
        proof {
            assert(standings_in_order(out@, ps, order@, *card_db));
            assert(standings_in_order(out@, self.spec_participants(), order@, *card_db));
        }
        out
    }

    /// Add a finished round to the record.
    pub fn add_round(&mut self, round: RoundResult)
        ensures
            final(self).spec_rounds() == old(self).spec_rounds().push(round),
            final(self).spec_participants() == old(self).spec_participants(),
            final(self).spec_byes() == old(self).spec_byes(),
            final(self).spec_config() == old(self).spec_config(),
    {
        self.rounds.push(round);
    }

    /// The number of participants.
    pub fn participant_count(&self) -> (r: usize)
        ensures
            r == self.spec_participants().len(),
    {
        self.participants.len()
    }
}

} // verus!
