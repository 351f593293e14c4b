//! The four-shape wire grammar shared by players, the orchestrator and
//! the replay viewer:
//!
//! ```text
//! move                 -> AskMove
//! <player>:<DIR>       -> Move { player, direction }   (DIR one of N S E W)
//! out:<player>         -> Out { player }
//! stop                 -> Stop
//! ```
//!
//! One instruction per newline-terminated line; the newline itself is
//! not part of the parsed text, but whitespace around the direction
//! letter is tolerated.

use vstd::prelude::*;

use crate::digits::{
    lemma_usize_digits_round_trip, lemma_usize_digits_val, parse_usize_str, spec_parse_usize,
    spec_usize_digits, usize_to_string, all_digits, is_digit_char,
};
use crate::game::{spec_char_dir, spec_dir_char, spec_parse_direction, Direction};
use crate::text::{find_char, spec_find_char, spec_trim, spec_trim_back, spec_trim_front, str_eq};

verus! {

/// A message of the wire protocol.
#[derive(Clone, Copy, PartialEq, Eq, Structural, Debug)]
pub enum Instruction {
    /// Ask the addressed player for its move.
    AskMove,
    /// Announce the move a player attempted.
    Move { player: usize, direction: Direction },
    /// Announce that a player is out of the game.
    Out { player: usize },
    /// Tell the addressed player to shut down.
    Stop,
}

/// Returned when a line matches none of the four instruction shapes.
#[derive(Clone, Copy, PartialEq, Eq, Structural, Debug)]
pub struct InstructionParseError {}

pub open spec fn spec_stop_line() -> Seq<char> {
    seq!['s', 't', 'o', 'p']
}

pub open spec fn spec_move_line() -> Seq<char> {
    seq!['m', 'o', 'v', 'e']
}

pub open spec fn spec_out_prefix() -> Seq<char> {
    seq!['o', 'u', 't', ':']
}

/// How a line parses as a player move, `<player>:<DIR>`: everything
/// before the first colon is the player id in decimal, everything after
/// it a direction letter.
pub open spec fn spec_parse_player_move(s: Seq<char>) -> Option<(usize, Direction)> {
    match spec_find_char(s, ':') {
        None => None,
        Some(i) => match spec_parse_usize(s.take(i)) {
            None => None,
            Some(player) => match spec_parse_direction(s.skip(i + 1)) {
                None => None,
                Some(direction) => Some((player, direction)),
            },
        },
    }
}

/// How a line parses as an instruction. The two keyword lines must match
/// exactly; an `out:` prefix commits to the `Out` shape.
pub open spec fn spec_parse_instruction(s: Seq<char>) -> Option<Instruction> {
    if s == spec_stop_line() {
        Some(Instruction::Stop)
    } else if s == spec_move_line() {
        Some(Instruction::AskMove)
    } else if s.len() >= 4 && s.take(4) == spec_out_prefix() {
        match spec_parse_usize(s.skip(4)) {
            Some(player) => Some(Instruction::Out { player }),
            None => None,
        }
    } else {
        match spec_parse_player_move(s) {
            Some((player, direction)) => Some(Instruction::Move { player, direction }),
            None => None,
        }
    }
}

/// The canonical line for an instruction, without the trailing newline.
pub open spec fn spec_encode_instruction(i: Instruction) -> Seq<char> {
    match i {
        Instruction::AskMove => spec_move_line(),
        Instruction::Stop => spec_stop_line(),
        Instruction::Out { player } => spec_out_prefix() + spec_usize_digits(player as nat),
        Instruction::Move { player, direction } => spec_usize_digits(player as nat) + seq![':']
            + seq![spec_dir_char(direction)],
    }
}

/// Parse `<player>:<DIR>`.
pub fn parse_player_move(input: &str) -> (r: Result<(usize, Direction), InstructionParseError>)
    ensures
        match r {
            Ok(m) => spec_parse_player_move(input@) == Some(m),
            Err(e) => spec_parse_player_move(input@) == None::<(usize, Direction)>,
        },
{
    let n = input.unicode_len();
    let i = match find_char(input, ':') {
        Some(i) => i,
        None => {
            return Err(InstructionParseError {});
        },
    };
    let left = input.substring_char(0, i);
    proof {
        assert(left@ =~= input@.take(i as int));
    }
    let player = match parse_usize_str(left) {
        Some(p) => p,
        None => {
            return Err(InstructionParseError {});
        },
    };
    let right = input.substring_char(i + 1, n);
    proof {
        assert(right@ =~= input@.skip(i + 1));
    }
    match Direction::parse(right) {
        Ok(direction) => Ok((player, direction)),
        Err(_) => Err(InstructionParseError {}),
    }
}

impl Instruction {
    /// Parse one line of the wire protocol.
    pub fn from_line(s: &str) -> (r: Result<Instruction, InstructionParseError>)
        ensures
            match r {
                Ok(i) => spec_parse_instruction(s@) == Some(i),
                Err(e) => spec_parse_instruction(s@) == None::<Instruction>,
            },
    {
        proof {
            reveal_strlit("stop");
            reveal_strlit("move");
            reveal_strlit("out:");
        }
        if str_eq(s, "stop") {
            proof {
                assert(s@ =~= spec_stop_line());
            }
            return Ok(Instruction::Stop);
        }
        if str_eq(s, "move") {
            proof {
                assert(s@ =~= spec_move_line());
            }
            return Ok(Instruction::AskMove);
        }
        proof {
            assert(s@ != spec_stop_line()) by {
                if s@ == spec_stop_line() {
                    assert(s@ =~= "stop"@);
                }
            }
            assert(s@ != spec_move_line()) by {
                if s@ == spec_move_line() {
                    assert(s@ =~= "move"@);
                }
            }
        }
        let n = s.unicode_len();
        if n >= 4 {
            let prefix = s.substring_char(0, 4);
            proof {
                assert(prefix@ =~= s@.take(4));
            }
            if str_eq(prefix, "out:") {
                proof {
                    assert(s@.take(4) =~= spec_out_prefix());
                }
                let rest = s.substring_char(4, n);
                proof {
                    assert(rest@ =~= s@.skip(4));
                }
                return match parse_usize_str(rest) {
                    Some(player) => Ok(Instruction::Out { player }),
                    None => Err(InstructionParseError {}),
                };
            }
            proof {
                assert(s@.take(4) != spec_out_prefix()) by {
                    if s@.take(4) == spec_out_prefix() {
                        assert(prefix@ =~= "out:"@);
                    }
                }
            }
        }
        match parse_player_move(s) {
            Ok(m) => Ok(Instruction::Move { player: m.0, direction: m.1 }),
            Err(e) => Err(e),
        }
    }

    /// The canonical line for this instruction, without the trailing
    /// newline.
    pub fn to_line(&self) -> (r: String)
        ensures
            r@ == spec_encode_instruction(*self),
    {
        proof {
            reveal_strlit("stop");
            reveal_strlit("move");
            reveal_strlit("out:");
            reveal_strlit(":");
        }
        match self {
            Instruction::Stop => {
                let r = String::from_str("stop");
                proof {
                    assert(r@ =~= spec_stop_line());
                }
                r
            },
            Instruction::AskMove => {
                let r = String::from_str("move");
                proof {
                    assert(r@ =~= spec_move_line());
                }
                r
            },
            Instruction::Out { player } => {
                let digits = usize_to_string(*player);
                let r = String::from_str("out:").concat(digits.as_str());
                proof {
                    assert(r@ =~= spec_encode_instruction(*self));
                }
                r
            },
            Instruction::Move { player, direction } => {
                let digits = usize_to_string(*player);
                let r = digits.concat(":").concat(direction.letter());
                proof {
                    assert(r@ =~= spec_encode_instruction(*self));
                }
                r
            },
        }
    }
}

impl core::str::FromStr for Instruction {
    type Err = InstructionParseError;

    /// Forwards to [`Instruction::from_line`], which carries the
    /// contract.
    fn from_str(s: &str) -> Result<Instruction, InstructionParseError> {
        Instruction::from_line(s)
    }
}

proof fn lemma_digits_no_colon(n: nat, i: int)
    requires
        0 <= i < spec_usize_digits(n).len(),
    ensures
        spec_usize_digits(n)[i] != ':',
{
    lemma_usize_digits_val(n);
    assert(is_digit_char(spec_usize_digits(n)[i]));
}

proof fn lemma_single_char_trim(c: char)
    requires
        !crate::text::is_space_char(c),
    ensures
        spec_trim(seq![c]) =~= seq![c],
{
    let s = seq![c];
    assert(spec_trim_front(s) == s);
    assert(spec_trim_back(s) == s);
}

/// Encoding any instruction and parsing the line back yields the same
/// instruction: the codec round-trips for every player id and direction,
/// and for the two keyword lines.
pub proof fn lemma_instruction_round_trip(i: Instruction)
    ensures
        spec_parse_instruction(spec_encode_instruction(i)) == Some(i),
{
    let enc = spec_encode_instruction(i);
    match i {
        Instruction::Stop => {
        },
        Instruction::AskMove => {
            assert(enc != spec_stop_line()) by {
                if enc == spec_stop_line() {
                    assert(spec_move_line()[0] == spec_stop_line()[0]);
                }
            }
        },
        Instruction::Out { player } => {
            lemma_usize_digits_val(player as nat);
            let digits = spec_usize_digits(player as nat);
            assert(enc != spec_stop_line()) by {
                if enc == spec_stop_line() {
                    assert(enc[1] == 't' && spec_out_prefix()[1] == 'u');
                }
            }
            assert(enc != spec_move_line()) by {
                if enc == spec_move_line() {
                    assert(enc[0] == 'm' && spec_out_prefix()[0] == 'o');
                }
            }
            assert(enc.len() >= 5);
            assert(enc.take(4) =~= spec_out_prefix());
            assert(enc.skip(4) =~= digits);
            lemma_usize_digits_round_trip(player);
        },
        Instruction::Move { player, direction } => {
            lemma_usize_digits_val(player as nat);
            let digits = spec_usize_digits(player as nat);
            let k = digits.len() as int;
            assert(is_digit_char(digits[0]));
            assert(enc[0] == digits[0]);
            assert(enc != spec_stop_line()) by {
                if enc == spec_stop_line() {
                    assert(enc[0] == 's');
                }
            }
            assert(enc != spec_move_line()) by {
                if enc == spec_move_line() {
                    assert(enc[0] == 'm');
                }
            }
            if enc.len() >= 4 {
                assert(enc.take(4) != spec_out_prefix()) by {
                    if enc.take(4) == spec_out_prefix() {
                        assert(enc.take(4)[0] == 'o');
                    }
                }
            }
            assert forall|j: int| 0 <= j < k implies enc[j] != ':' by {
                assert(enc[j] == digits[j]);
                lemma_digits_no_colon(player as nat, j);
            }
            assert(enc[k] == ':');
            crate::text::lemma_find_char_first(enc, ':', k);
            assert(enc.take(k) =~= digits);
            lemma_usize_digits_round_trip(player);
            assert(enc.skip(k + 1) =~= seq![spec_dir_char(direction)]);
            lemma_single_char_trim(spec_dir_char(direction));
            assert(spec_char_dir(spec_dir_char(direction)) == Some(direction));
        },
    }
}

} // verus!
