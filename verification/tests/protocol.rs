//! The wire grammar: the four instruction shapes, their encodings, and
//! the lines that must fail to parse.

use snakerunner::game::Direction;
use snakerunner::parse_instruction::{parse_player_move, Instruction, InstructionParseError};
use snakerunner::showgame::parse_usize_pair;

#[test]
fn stop() {
    assert_eq!("stop".parse(), Ok(Instruction::Stop));
}

#[test]
fn ask_move() {
    assert_eq!("move".parse(), Ok(Instruction::AskMove));
}

#[test]
fn out() {
    assert_eq!("out:12".parse(), Ok(Instruction::Out { player: 12 }));
    assert_eq!("out:-1".parse::<Instruction>(), Err(InstructionParseError {}));
    assert_eq!("out:bloop".parse::<Instruction>(), Err(InstructionParseError {}));
}

#[test]
fn move_test() {
    assert_eq!(
        "12:N".parse(),
        Ok(Instruction::Move { player: 12, direction: Direction::North })
    );
    assert_eq!(
        "13:S\n".parse(),
        Ok(Instruction::Move { player: 13, direction: Direction::South })
    );
    assert_eq!("14:zoom".parse::<Instruction>(), Err(InstructionParseError {}));
}

#[test]
fn encode_instructions() {
    assert_eq!(Instruction::Stop.to_line(), "stop");
    assert_eq!(Instruction::AskMove.to_line(), "move");
    assert_eq!(Instruction::Out { player: 5 }.to_line(), "out:5");
    assert_eq!(
        Instruction::Move { player: 12, direction: Direction::North }.to_line(),
        "12:N"
    );
    assert_eq!(
        Instruction::Move { player: 0, direction: Direction::West }.to_line(),
        "0:W"
    );
}

#[test]
fn round_trip_all_shapes() {
    let samples = vec![
        Instruction::Stop,
        Instruction::AskMove,
        Instruction::Out { player: 0 },
        Instruction::Out { player: 907 },
        Instruction::Move { player: 3, direction: Direction::East },
        Instruction::Move { player: usize::MAX, direction: Direction::South },
    ];
    for i in samples {
        assert_eq!(Instruction::from_line(i.to_line().as_str()), Ok(i));
    }
}

#[test]
fn reject_malformed_lines() {
    assert!(Instruction::from_line("").is_err());
    assert!(Instruction::from_line("out").is_err());
    assert!(Instruction::from_line("out:").is_err());
    assert!(Instruction::from_line("move ").is_err());
    assert!(Instruction::from_line("stopx").is_err());
    assert!(Instruction::from_line("12").is_err());
    assert!(Instruction::from_line(":N").is_err());
    assert!(Instruction::from_line("12:NS").is_err());
    assert!(Instruction::from_line("-1:N").is_err());
}

#[test]
fn direction_letters() {
    assert_eq!(Direction::North.letter(), "N");
    assert_eq!(Direction::South.letter(), "S");
    assert_eq!(Direction::East.letter(), "E");
    assert_eq!(Direction::West.letter(), "W");
}

#[test]
fn parse_direction_strict_single_letter() {
    assert_eq!(Direction::parse("N"), Ok(Direction::North));
    assert_eq!("N".parse(), Ok(Direction::North));
    assert_eq!(Direction::parse(" S\n"), Ok(Direction::South));
    assert_eq!(Direction::parse("E\r\n"), Ok(Direction::East));
    assert_eq!(Direction::parse("\tW "), Ok(Direction::West));
    assert!(Direction::parse("north").is_err());
    assert!(Direction::parse("n").is_err());
    assert!(Direction::parse("NS").is_err());
    assert!(Direction::parse("").is_err());
    assert!(Direction::parse("  ").is_err());
}

#[test]
fn decimal_rendering_and_parsing() {
    assert_eq!(snakerunner::digits::usize_to_string(0), "0");
    assert_eq!(snakerunner::digits::usize_to_string(907), "907");
    assert_eq!(snakerunner::digits::parse_usize_str("007"), Some(7));
    assert_eq!(snakerunner::digits::parse_usize_str("0"), Some(0));
    assert_eq!(snakerunner::digits::parse_usize_str(""), None);
    assert_eq!(snakerunner::digits::parse_usize_str("+7"), None);
    assert_eq!(snakerunner::digits::parse_usize_str("1 2"), None);
    assert_eq!(
        snakerunner::digits::parse_usize_str("999999999999999999999999999999"),
        None
    );
    let max = usize::MAX.to_string();
    assert_eq!(
        snakerunner::digits::parse_usize_str(max.as_str()),
        Some(usize::MAX)
    );
}

#[test]
fn parse_pairs() {
    assert_eq!(parse_usize_pair("3,4"), Ok((3, 4)));
    assert_eq!(parse_usize_pair("0,0"), Ok((0, 0)));
    assert!(parse_usize_pair("3").is_err());
    assert!(parse_usize_pair("3,").is_err());
    assert!(parse_usize_pair(",4").is_err());
    assert!(parse_usize_pair("1,2,3").is_err());
    assert!(parse_usize_pair("a,1").is_err());
}

#[test]
fn parse_player_move_shape() {
    assert_eq!(parse_player_move("12:N"), Ok((12, Direction::North)));
    assert_eq!(parse_player_move("0:W\n"), Ok((0, Direction::West)));
    assert!(parse_player_move("12N").is_err());
    assert!(parse_player_move("12:X").is_err());
    assert!(parse_player_move("12:N:X").is_err());
}
