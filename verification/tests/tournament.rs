use essence_wars::arena::rating::{add_history, match_result, MatchResult, RatingChange, HISTORY_LIMIT};
use essence_wars::arena::swiss::SwissTournament;
use essence_wars::arena::tournament::{
    pair_ranked, MatchOutcome, MatchupStats, Pairing, Participant, RoundResult, SwissConfig, Tally, TournamentMatchResult,
};
use essence_wars::bots::factory::BotType;
use essence_wars::decks::{DeckDefinition, DeckRegistry};

#[test]
fn inverse_swaps_win_and_loss() {
    assert_eq!(TournamentMatchResult::Win.inverse(), TournamentMatchResult::Loss);
    assert_eq!(TournamentMatchResult::Loss.inverse(), TournamentMatchResult::Win);
    assert_eq!(TournamentMatchResult::Draw.inverse(), TournamentMatchResult::Draw);
    for r in [TournamentMatchResult::Win, TournamentMatchResult::Loss, TournamentMatchResult::Draw] {
        assert_eq!(r.inverse().inverse(), r);
    }
}

#[test]
fn match_points_and_results_from_games() {
    assert_eq!(TournamentMatchResult::Win.points(), 3);
    assert_eq!(TournamentMatchResult::Draw.points(), 1);
    assert_eq!(TournamentMatchResult::Loss.points(), 0);
    assert_eq!(TournamentMatchResult::from_games(7, 3), TournamentMatchResult::Win);
    assert_eq!(TournamentMatchResult::from_games(3, 7), TournamentMatchResult::Loss);
    assert_eq!(TournamentMatchResult::from_games(5, 5), TournamentMatchResult::Draw);
    assert_eq!(TournamentMatchResult::from_games(3, 7), TournamentMatchResult::from_games(7, 3).inverse());
}

#[test]
fn pairings_and_byes() {
    let p = Pairing::new("a".to_string(), "b".to_string());
    assert!(!p.is_bye());
    assert_eq!(p.player2_id.as_deref(), Some("b"));
    let b = Pairing::bye("c".to_string());
    assert!(b.is_bye());
    assert_eq!(b.player1_id, "c");
}

fn change(i: i32) -> RatingChange {
    RatingChange { date: "2024-01-01".to_string(), opponent: "x".to_string(), delta: i, result: MatchResult::Draw, games: 1 }
}

#[test]
fn history_keeps_the_last_fifty() {
    let mut h = Vec::new();
    for i in 0..60 {
        add_history(&mut h, change(i));
        assert!(h.len() <= HISTORY_LIMIT);
    }
    assert_eq!(h.len(), 50);
    assert_eq!(h[0].delta, 10);
    assert_eq!(h[49].delta, 59);
}

#[test]
fn rating_match_results() {
    assert_eq!(match_result(8, 2), MatchResult::Win);
    assert_eq!(match_result(2, 8), MatchResult::Loss);
    assert_eq!(match_result(0, 0), MatchResult::Draw);
}

#[test]
fn test_recommended_rounds() {
    assert_eq!(SwissConfig::recommended_rounds(1), 0);
    assert_eq!(SwissConfig::recommended_rounds(2), 2);
    assert_eq!(SwissConfig::recommended_rounds(4), 3);
    assert_eq!(SwissConfig::recommended_rounds(8), 4);
    assert_eq!(SwissConfig::recommended_rounds(12), 5);
}

#[test]
fn recommended_rounds_edges() {
    assert_eq!(SwissConfig::recommended_rounds(0), 0);
    assert_eq!(SwissConfig::recommended_rounds(3), 3);
    assert_eq!(SwissConfig::recommended_rounds(9), 5);
    assert_eq!(SwissConfig::recommended_rounds(16), 5);
    assert_eq!(SwissConfig::recommended_rounds(17), 6);
}

fn no_games(n: usize) -> Vec<Vec<bool>> {
    vec![vec![false; n]; n]
}

#[test]
fn pairing_an_even_field_pairs_neighbours() {
    let r = pair_ranked(4, &vec![false; 4], &no_games(4));
    assert_eq!(r, vec![(0, Some(1)), (2, Some(3))]);
}

#[test]
fn pairing_an_odd_field_gives_the_lowest_ranked_a_bye() {
    let r = pair_ranked(5, &vec![false; 5], &no_games(5));
    assert_eq!(r, vec![(4, None), (0, Some(1)), (2, Some(3))]);
    // The lowest ranked already had a bye: the next one up gets it.
    let r = pair_ranked(5, &vec![false, false, false, false, true], &no_games(5));
    assert_eq!(r, vec![(3, None), (0, Some(1)), (2, Some(4))]);
    // Everyone had one: the lowest ranked gets it again.
    let r = pair_ranked(3, &vec![true; 3], &no_games(3));
    assert_eq!(r, vec![(2, None), (0, Some(1))]);
}

#[test]
fn pairing_avoids_rematches_when_it_can() {
    let mut played = no_games(4);
    played[0][1] = true;
    played[1][0] = true;
    let r = pair_ranked(4, &vec![false; 4], &played);
    assert_eq!(r, vec![(0, Some(2)), (1, Some(3))]);
    // Everyone has met everyone: plain order.
    let r = pair_ranked(4, &vec![false; 4], &vec![vec![true; 4]; 4]);
    assert_eq!(r, vec![(0, Some(1)), (2, Some(3))]);
}

#[test]
fn pairing_a_single_participant_is_a_bye() {
    assert_eq!(pair_ranked(1, &vec![false], &no_games(1)), vec![(0, None)]);
    assert_eq!(pair_ranked(0, &vec![], &no_games(0)), vec![]);
}

fn deck(id: &str) -> DeckDefinition {
    DeckDefinition {
        id: id.to_string(),
        name: format!("Deck {}", id),
        description: "Test deck for unit tests".to_string(),
        commander: 1000,
        cards: vec![],
        tags: vec![],
        playstyle: "midrange".to_string(),
    }
}

#[test]
fn test_match_outcome_inverse() {
    let outcome = MatchOutcome { result: TournamentMatchResult::Win, wins: 7, losses: 3, draws: 0, games: 10 };
    let inverse = outcome.inverse();
    assert_eq!(inverse.result, TournamentMatchResult::Loss);
    assert_eq!(inverse.wins, 3);
    assert_eq!(inverse.losses, 7);
    assert_eq!(inverse.games, 10);
}

#[test]
fn match_outcome_sides_of_one_match() {
    let stats = MatchupStats { games: 10, bot1_wins: 6, bot2_wins: 3, draws: 1 };
    let first = MatchOutcome::from_stats(&stats, true);
    let second = MatchOutcome::from_stats(&stats, false);
    assert_eq!(first, MatchOutcome { result: TournamentMatchResult::Win, wins: 6, losses: 3, draws: 1, games: 10 });
    assert_eq!(second, first.inverse());
    assert_eq!(second.inverse(), first);
}

#[test]
fn test_participant_record_match() {
    let mut participant = Participant::new(deck("test_deck"));
    assert_eq!(participant.score, 0);
    let outcome = MatchOutcome { result: TournamentMatchResult::Win, wins: 7, losses: 3, draws: 0, games: 10 };
    participant.record_match("opponent1", outcome);
    assert_eq!(participant.score, 3);
    assert!(participant.has_played("opponent1"));
    let outcome2 = MatchOutcome { result: TournamentMatchResult::Draw, wins: 5, losses: 5, draws: 0, games: 10 };
    participant.record_match("opponent2", outcome2);
    assert_eq!(participant.score, 4);
    let outcome3 = MatchOutcome { result: TournamentMatchResult::Loss, wins: 3, losses: 7, draws: 0, games: 10 };
    participant.record_match("opponent3", outcome3);
    assert_eq!(participant.score, 4);
}

#[test]
fn participant_totals_keep_the_latest_outcome_per_opponent() {
    let mut p = Participant::new(deck("a"));
    p.record_match("b", MatchOutcome { result: TournamentMatchResult::Win, wins: 7, losses: 3, draws: 0, games: 10 });
    p.record_match("c", MatchOutcome { result: TournamentMatchResult::Loss, wins: 2, losses: 8, draws: 0, games: 10 });
    assert_eq!(p.total(Tally::Games), 20);
    assert_eq!(p.total(Tally::Wins), 9);
    p.record_match("b", MatchOutcome { result: TournamentMatchResult::Draw, wins: 4, losses: 4, draws: 2, games: 10 });
    assert_eq!(p.match_history.len(), 2);
    assert_eq!(p.opponents.len(), 3);
    assert_eq!(p.total(Tally::Games), 20);
    assert_eq!(p.total(Tally::Wins), 6);
    assert_eq!(p.total(Tally::Draws), 2);
    assert_eq!(p.total(Tally::Matches(TournamentMatchResult::Win)), 0);
    assert_eq!(p.score, 4);
    assert!(!p.has_played("d"));
}

#[test]
fn round_result_starts_empty() {
    let r = RoundResult::new(1, vec![Pairing::bye("a".to_string())]);
    assert_eq!(r.round_number, 1);
    assert_eq!(r.pairings.len(), 1);
    assert!(r.results.is_empty());
    assert_eq!(r.duration, std::time::Duration::ZERO);
}

#[test]
fn swiss_config_builders() {
    let c = SwissConfig::new(3, 10, BotType::Greedy, 42).with_progress(true);
    assert_eq!(c.rounds, 3);
    assert_eq!(c.games_per_match, 10);
    assert_eq!(c.seed, 42);
    assert!(c.show_progress);
    assert!(c.faction_filter.is_none());
}

#[test]
fn swiss_first_round_pairs_by_id_order() {
    let mut reg = DeckRegistry::new();
    for id in ["d", "b", "a", "c", "e"] {
        reg.add(deck(id));
    }
    let t = SwissTournament::new(&reg, SwissConfig::new(3, 10, BotType::Greedy, 1));
    assert_eq!(t.participant_count(), 5);
    let ps = t.generate_pairings();
    assert_eq!(ps.len(), 3);
    assert_eq!(ps[0].player1_id, "e");
    assert!(ps[0].is_bye());
    assert_eq!(ps[1].player1_id, "a");
    assert_eq!(ps[1].player2_id.as_deref(), Some("b"));
    assert_eq!(ps[2].player1_id, "c");
    assert_eq!(ps[2].player2_id.as_deref(), Some("d"));
    assert_eq!(t.buchholz_score("a"), 0);
}

#[test]
fn swiss_records_byes_results_and_standings() {
    let mut reg = DeckRegistry::new();
    for id in ["c", "a", "b"] {
        reg.add(deck(id));
    }
    let mut t = SwissTournament::new(&reg, SwissConfig::new(2, 10, BotType::Greedy, 7));
    let round1 = t.generate_pairings();
    assert_eq!(round1.len(), 2);
    assert_eq!(round1[0].player1_id, "c");
    assert!(round1[0].is_bye());
    assert_eq!(round1[1].player1_id, "a");
    assert_eq!(round1[1].player2_id.as_deref(), Some("b"));
    assert!(t.record_bye("c"));
    assert!(t.record_result("a", "b", &MatchupStats { games: 10, bot1_wins: 3, bot2_wins: 6, draws: 1 }));
    assert!(!t.record_result("a", "a", &MatchupStats { games: 1, bot1_wins: 1, bot2_wins: 0, draws: 0 }));
    t.add_round(RoundResult::new(1, round1));
    assert_eq!(t.rounds().len(), 1);
    let ps = t.participants();
    assert_eq!(ps[0].score, 0);
    assert_eq!(ps[1].score, 3);
    assert_eq!(ps[2].score, 3);
    assert_eq!(t.buchholz_score("a"), 3);
    assert_eq!(t.buchholz_score("b"), 0);
    assert_eq!(t.buchholz_score("zzz"), 0);
    // Ranking: b (3 points, Buchholz 0, 6/10) and c (3 points, Buchholz 0, no games: 1/2); then a.
    // Round two: a is lowest ranked and has not had a bye.
    let round2 = t.generate_pairings();
    assert_eq!(round2.len(), 2);
    assert_eq!(round2[0].player1_id, "a");
    assert!(round2[0].is_bye());
    assert_eq!(round2[1].player1_id, "b");
    assert_eq!(round2[1].player2_id.as_deref(), Some("c"));
    let db = essence_wars::gamecore::cards::CardDatabase::empty();
    let st = t.compute_standings(&db);
    assert_eq!(st.len(), 3);
    assert_eq!((st[0].rank, st[0].deck_id.as_str()), (1, "b"));
    assert_eq!((st[1].rank, st[1].deck_id.as_str()), (2, "c"));
    assert_eq!((st[2].rank, st[2].deck_id.as_str()), (3, "a"));
    assert_eq!(st[0].games_won, 6);
    assert_eq!(st[0].games_lost, 3);
    assert_eq!(st[0].games_drawn, 1);
    assert_eq!(st[0].match_wins, 1);
    assert_eq!(st[2].match_losses, 1);
    assert_eq!(st[0].commander_name, "Unknown");
    assert_eq!(st[0].faction, "Unknown");
    assert_eq!(st[0].buchholz, 0);
}

#[test]
fn swiss_bye_goes_to_each_once() {
    let mut reg = DeckRegistry::new();
    reg.add(deck("x"));
    let mut t = SwissTournament::new(&reg, SwissConfig::new(2, 1, BotType::Random, 0));
    let p = t.generate_pairings();
    assert_eq!(p.len(), 1);
    assert!(p[0].is_bye());
    assert!(t.record_bye("x"));
    assert!(t.record_bye("x"));
    assert_eq!(t.participants()[0].score, 6);
}
