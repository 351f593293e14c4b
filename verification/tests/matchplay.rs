//! Match-level bookkeeping: counting outcomes, the tied set, seating and
//! attribution, the tiebreaker scenario, and the summary record.

use snakerunner::matchrun::{attribute_results, random_seating, summary_string, MatchStats};
use snakerunner::running::{LossReason, PlayerResult};

#[test]
fn counters_attribute_every_outcome() {
    let mut stats = MatchStats::new(3);
    stats.update(&vec![
        PlayerResult::Winner,
        PlayerResult::Loser(LossReason::TimeOut),
        PlayerResult::Loser(LossReason::LosingMove),
    ]);
    stats.update(&vec![
        PlayerResult::Loser(LossReason::InvalidInput),
        PlayerResult::Winner,
        PlayerResult::Loser(LossReason::LosingMove),
    ]);
    assert_eq!(stats.wins, vec![1, 1, 0]);
    assert_eq!(stats.timeouts, vec![0, 1, 0]);
    assert_eq!(stats.invalid_inputs, vec![1, 0, 0]);
    assert_eq!(stats.losing_moves, vec![0, 0, 2]);
}

#[test]
fn most_wins_lists_the_tied_players_in_order() {
    let mut stats = MatchStats::new(4);
    stats.wins = vec![2, 0, 2, 1];
    assert_eq!(stats.most_wins(), vec![0, 2]);
    stats.wins = vec![0, 0, 0, 0];
    assert_eq!(stats.most_wins(), vec![0, 1, 2, 3]);
    stats.wins = vec![0, 3, 0, 0];
    assert_eq!(stats.most_wins(), vec![1]);
}

#[test]
fn tiebreaker_winner_takes_the_match() {
    // Two players tied for the most wins after the scheduled games: a
    // decisive tiebreaker game's winner becomes the immediate match
    // winner, with its win counted.
    let mut stats = MatchStats::new(3);
    stats.wins = vec![2, 2, 1];
    let tied = stats.most_wins();
    assert_eq!(tied, vec![0, 1]);
    assert!(tied.len() >= 2);
    // The tiebreaker reseats all original players and player 1 wins it.
    stats.update(&vec![
        PlayerResult::Loser(LossReason::LosingMove),
        PlayerResult::Winner,
        PlayerResult::Loser(LossReason::TimeOut),
    ]);
    assert_eq!(stats.wins, vec![2, 3, 1]);
    assert_eq!(stats.most_wins(), vec![1]);
    assert_eq!(
        summary_string(6, &stats.wins, 1),
        "n_games:6\n0:2\n1:3\n2:1\nwinner:1\n"
    );
}

#[test]
fn summary_record_shape() {
    assert_eq!(summary_string(0, &vec![0], 0), "n_games:0\n0:0\nwinner:0\n");
    assert_eq!(
        summary_string(7, &vec![3, 0, 4], 2),
        "n_games:7\n0:3\n1:0\n2:4\nwinner:2\n"
    );
    // A game can end with no winner, so the games played may exceed the
    // sum of the win counters.
    assert_eq!(
        summary_string(3, &vec![1, 0], 0),
        "n_games:3\n0:1\n1:0\nwinner:0\n"
    );
}

#[test]
fn seating_is_a_permutation() {
    for n in [1usize, 2, 5, 9] {
        let seating = random_seating(n);
        assert_eq!(seating.len(), n);
        let mut sorted = seating.clone();
        sorted.sort();
        let identity: Vec<usize> = (0..n).collect();
        assert_eq!(sorted, identity);
    }
    assert_eq!(random_seating(0).len(), 0);
}

#[test]
fn attribution_follows_the_seating() {
    // seating[s] is the script identity sitting at seat s.
    let seating = vec![2usize, 0, 1];
    let seat_results = vec![
        PlayerResult::Winner,
        PlayerResult::Loser(LossReason::TimeOut),
        PlayerResult::Loser(LossReason::LosingMove),
    ];
    let by_script = attribute_results(&seating, &seat_results);
    assert_eq!(by_script[2], PlayerResult::Winner);
    assert_eq!(by_script[0], PlayerResult::Loser(LossReason::TimeOut));
    assert_eq!(by_script[1], PlayerResult::Loser(LossReason::LosingMove));
}
