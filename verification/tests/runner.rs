//! The game loop's decisions: turn order, deaths and their causes,
//! termination, the broadcast plans, and replaying a finished game from
//! its log.

use snakerunner::game::{Direction, TorusSnakeGame};
use snakerunner::parse_instruction::Instruction;
use snakerunner::running::{
    kill_player, GameRunner, LossReason, Message, PlayerResult, PlayerStatus,
};
use snakerunner::showgame::replay_game;
use snakerunner::writer::{BroadcastWriter, WriteAction};

fn two_player_runner() -> GameRunner {
    GameRunner::new(TorusSnakeGame::new(3, 3, vec![(0, 0), (2, 2)]))
}

#[test]
fn east_versus_west_ends_with_a_losing_move() {
    // 3 by 3 board, players at (0,0) and (2,2); player 0 always moves
    // East, player 1 always West. Eventually one hits an occupied cell,
    // is marked dead of a losing move, and the other wins.
    let mut runner = two_player_runner();
    let winner = runner.run_fixed_policies(&vec![Direction::East, Direction::West]);
    assert_eq!(winner, Some(1));
    assert_eq!(
        runner.player_statuses,
        vec![
            PlayerStatus::Dead(LossReason::LosingMove),
            PlayerStatus::Alive,
        ]
    );
    let results = runner.results();
    assert!(!results[0].is_winner());
    assert!(results[1].is_winner());
}

#[test]
fn fixed_policy_games_always_terminate() {
    // Whatever the fixed move sequences, the loop ends with at most one
    // player alive: every turn fills a cell or kills a player.
    let policies = [
        [Direction::North, Direction::North],
        [Direction::East, Direction::East],
        [Direction::South, Direction::West],
    ];
    for policy in policies {
        let mut runner = two_player_runner();
        let _ = runner.run_fixed_policies(&policy.to_vec());
        assert!(runner.alive_count() <= 1);
    }
}

#[test]
fn timeout_kills_and_the_game_goes_on() {
    // A player producing no output in time is marked Dead(TimeOut) and
    // the game continues with the remaining players.
    let mut runner = GameRunner::new(TorusSnakeGame::new(
        5,
        5,
        vec![(0, 0), (2, 2), (4, 4)],
    ));
    assert_eq!(runner.next_to_ask(), Some(0));
    let msgs = runner.apply_timeout(0);
    assert_eq!(msgs.len(), 1);
    assert!(matches!(msgs[0], Message::Kill(0)));
    assert_eq!(runner.player_statuses[0], PlayerStatus::Dead(LossReason::TimeOut));
    assert_eq!(runner.alive_count(), 2);
    // The dead player is never asked again.
    assert_eq!(runner.next_to_ask(), Some(1));
    let msgs = runner.apply_line(1, "E");
    assert_eq!(msgs.len(), 1);
    assert!(matches!(
        msgs[0],
        Message::CommunicateMove { direction: Direction::East, player: 1 }
    ));
    assert_eq!(runner.next_to_ask(), Some(2));
}

#[test]
fn garbage_input_is_invalid_input() {
    let mut runner = two_player_runner();
    assert_eq!(runner.next_to_ask(), Some(0));
    let msgs = runner.apply_line(0, "zoom");
    assert!(matches!(msgs[0], Message::Kill(0)));
    assert_eq!(
        runner.player_statuses[0],
        PlayerStatus::Dead(LossReason::InvalidInput)
    );
    // Fewer than two players remain: the game is over, the survivor wins.
    assert_eq!(runner.next_to_ask(), None);
    assert_eq!(runner.winner(), Some(1));
}

#[test]
fn losing_move_still_communicates_the_direction() {
    let mut runner = GameRunner::new(TorusSnakeGame::new(2, 1, vec![(0, 0), (1, 0)]));
    assert_eq!(runner.next_to_ask(), Some(0));
    let msgs = runner.apply_line(0, "E");
    assert_eq!(msgs.len(), 2);
    assert!(matches!(msgs[0], Message::Kill(0)));
    assert!(matches!(
        msgs[1],
        Message::CommunicateMove { direction: Direction::East, player: 0 }
    ));
    assert_eq!(
        runner.player_statuses[0],
        PlayerStatus::Dead(LossReason::LosingMove)
    );
}

#[test]
fn startup_grace_period_is_tenfold() {
    let mut runner = two_player_runner();
    assert_eq!(runner.current_time_limit(100), 1000);
    assert_eq!(runner.next_to_ask(), Some(0));
    let _ = runner.apply_line(0, "E");
    assert_eq!(runner.current_time_limit(100), 100);
}

#[test]
fn closing_messages_stop_the_survivors() {
    let mut runner = two_player_runner();
    let _ = runner.run_fixed_policies(&vec![Direction::East, Direction::West]);
    let msgs = runner.closing_messages();
    assert_eq!(msgs.len(), 1);
    assert!(matches!(msgs[0], Message::Kill(1)));
    // Cleanup does not reclassify the winner as dead.
    assert_eq!(runner.player_statuses[1], PlayerStatus::Alive);
}

#[test]
fn no_winner_when_everyone_is_dead() {
    let mut runner = two_player_runner();
    assert_eq!(runner.next_to_ask(), Some(0));
    let _ = runner.apply_line(0, "garbage");
    // Only one player is left: the loop is over before player 1 moves.
    assert_eq!(runner.next_to_ask(), None);
    let _ = kill_player(1, LossReason::TimeOut, &mut runner.player_statuses);
    assert_eq!(runner.winner(), None);
    assert_eq!(
        runner.results(),
        vec![
            PlayerResult::Loser(LossReason::InvalidInput),
            PlayerResult::Loser(LossReason::TimeOut),
        ]
    );
}

#[test]
fn kill_player_marks_and_messages() {
    let mut statuses = vec![PlayerStatus::Alive, PlayerStatus::Alive];
    let msg = kill_player(1, LossReason::TimeOut, &mut statuses);
    assert!(matches!(msg, Message::Kill(1)));
    assert_eq!(statuses[1], PlayerStatus::Dead(LossReason::TimeOut));
    assert_eq!(statuses[0], PlayerStatus::Alive);
}

#[test]
fn result_from_status() {
    assert!(PlayerResult::from(PlayerStatus::Alive).is_winner());
    assert_eq!(
        PlayerResult::from(PlayerStatus::Dead(LossReason::TimeOut)),
        PlayerResult::Loser(LossReason::TimeOut)
    );
    assert!(PlayerStatus::Alive.is_alive());
    assert!(!PlayerStatus::Dead(LossReason::LosingMove).is_alive());
}

fn send_text(a: &WriteAction) -> (Option<usize>, &str) {
    match a {
        WriteAction::Send { player, text } => (Some(*player), text.as_str()),
        WriteAction::Log { text } => (None, text.as_str()),
    }
}

#[test]
fn writer_broadcasts_header_to_everyone_with_own_id() {
    let mut writer = BroadcastWriter::new(3);
    let acts = writer.handle(Message::SendHeader("3,3\n2\n0,0\n2,2".to_string()));
    assert_eq!(acts.len(), 4);
    assert_eq!(send_text(&acts[0]), (Some(0), "3,3\n2\n0,0\n2,2\n0"));
    assert_eq!(send_text(&acts[1]), (Some(1), "3,3\n2\n0,0\n2,2\n1"));
    assert_eq!(send_text(&acts[2]), (Some(2), "3,3\n2\n0,0\n2,2\n2"));
    assert_eq!(send_text(&acts[3]), (None, "3,3\n2\n0,0\n2,2"));
}

#[test]
fn writer_asks_only_the_addressed_player() {
    let mut writer = BroadcastWriter::new(3);
    let acts = writer.handle(Message::AskMove(1));
    assert_eq!(acts.len(), 1);
    assert_eq!(send_text(&acts[0]), (Some(1), "move"));
}

#[test]
fn writer_logs_and_relays_moves_to_live_opponents() {
    let mut writer = BroadcastWriter::new(3);
    let acts = writer.handle(Message::CommunicateMove {
        direction: Direction::East,
        player: 0,
    });
    assert_eq!(acts.len(), 3);
    assert_eq!(send_text(&acts[0]), (None, "0:E"));
    assert_eq!(send_text(&acts[1]), (Some(1), "0:E"));
    assert_eq!(send_text(&acts[2]), (Some(2), "0:E"));
    // A broken pipe drops that child from future deliveries only.
    writer.note_write_failure(2);
    let acts = writer.handle(Message::CommunicateMove {
        direction: Direction::West,
        player: 1,
    });
    assert_eq!(acts.len(), 2);
    assert_eq!(send_text(&acts[0]), (None, "1:W"));
    assert_eq!(send_text(&acts[1]), (Some(0), "1:W"));
}

#[test]
fn writer_kill_stops_the_player_and_tells_the_rest() {
    let mut writer = BroadcastWriter::new(3);
    let acts = writer.handle(Message::Kill(1));
    assert_eq!(acts.len(), 3);
    assert_eq!(send_text(&acts[0]), (Some(1), "stop"));
    assert_eq!(send_text(&acts[1]), (Some(0), "out:1"));
    assert_eq!(send_text(&acts[2]), (Some(2), "out:1"));
    // The killed player no longer hears later broadcasts.
    let acts = writer.handle(Message::CommunicateMove {
        direction: Direction::North,
        player: 0,
    });
    assert_eq!(acts.len(), 2);
    assert_eq!(send_text(&acts[0]), (None, "0:N"));
    assert_eq!(send_text(&acts[1]), (Some(2), "0:N"));
}

/// Drive a two-player East-versus-West game by hand, collect the log
/// lines the writer would emit, and replay prefixes of that log: after
/// every move the replayed board matches the live board, cell for cell.
#[test]
fn replay_reconstructs_every_board_state() {
    let mut runner = two_player_runner();
    let header = runner.game.setup_string();
    assert!(header.starts_with("3,3\n2\n0,0\n2,2"));
    let mut log: Vec<String> = header.split('\n').map(|s| s.to_string()).collect();
    let policies = [Direction::East, Direction::West];

    loop {
        let replayed = replay_game(&log).expect("every log prefix replays");
        for x in 0..3 {
            for y in 0..3 {
                assert_eq!(replayed.get((x, y)), runner.game.get((x, y)));
            }
        }
        let p = match runner.next_to_ask() {
            Some(p) => p,
            None => break,
        };
        let msgs = runner.apply_line(p, policies[p].letter());
        for msg in msgs {
            if let Message::CommunicateMove { direction, player } = msg {
                log.push(Instruction::Move { player, direction }.to_line());
            }
        }
    }
    let replayed = replay_game(&log).expect("the full log replays");
    for x in 0..3 {
        for y in 0..3 {
            assert_eq!(replayed.get((x, y)), runner.game.get((x, y)));
        }
    }
}

#[test]
fn replay_rejects_broken_logs() {
    let lines = |v: &[&str]| v.iter().map(|s| s.to_string()).collect::<Vec<String>>();
    assert!(replay_game(&lines(&["3,3"])).is_err());
    assert!(replay_game(&lines(&["3,3", "x"])).is_err());
    assert!(replay_game(&lines(&["3,3", "2", "0,0"])).is_err());
    assert!(replay_game(&lines(&["3,3", "2", "0,0", "0,0"])).is_err());
    assert!(replay_game(&lines(&["3,3", "2", "0,0", "9,9"])).is_err());
    assert!(replay_game(&lines(&["0,3", "1", "0,0"])).is_err());
    assert!(replay_game(&lines(&["3,3", "2", "0,0", "2,2", "bogus"])).is_err());
    assert!(replay_game(&lines(&["3,3", "2", "0,0", "2,2", "5:E"])).is_err());
    // Non-move instructions in a log are skipped, not errors.
    assert!(replay_game(&lines(&["3,3", "2", "0,0", "2,2", "out:1", "0:E"])).is_ok());
}

#[test]
fn random_positions_are_distinct_and_in_bounds() {
    let positions = snakerunner::running::random_starting_positions(4, 3, 12);
    assert_eq!(positions.len(), 12);
    for (i, p) in positions.iter().enumerate() {
        assert!(p.0 < 4 && p.1 < 3);
        for q in positions.iter().skip(i + 1) {
            assert_ne!(p, q);
        }
    }
}
