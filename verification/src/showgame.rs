//! Replaying a recorded game from its log lines: the header rebuilds the
//! starting board, and every `player:DIR` line replays one move, so the
//! replay passes through exactly the board states of the original game.
//!
//! Reading the file and animating the boards on a terminal happen
//! outside the library; this module turns the lines into board states.

use vstd::prelude::*;

use crate::digits::{parse_usize_str, spec_parse_usize};
use crate::game::{spec_init_game, GameView, TorusSnakeGame};
use crate::parse_instruction::{
    spec_parse_instruction, Instruction, InstructionParseError,
};
use crate::running::distinct_positions;
use crate::text::{find_char, spec_find_char};

verus! {

/// How a line parses as a coordinate pair `x,y`: a decimal number, one
/// comma, a decimal number.
pub open spec fn spec_parse_usize_pair(s: Seq<char>) -> Option<(usize, usize)> {
    match spec_find_char(s, ',') {
        None => None,
        Some(i) => match spec_parse_usize(s.take(i)) {
            None => None,
            Some(x) => match spec_parse_usize(s.skip(i + 1)) {
                None => None,
                Some(y) => Some((x, y)),
            },
        },
    }
}

/// Parse a coordinate pair `x,y`.
pub fn parse_usize_pair(input: &str) -> (r: Result<(usize, usize), InstructionParseError>)
    ensures
        match r {
            Ok(p) => spec_parse_usize_pair(input@) == Some(p),
            Err(e) => spec_parse_usize_pair(input@) == None::<(usize, usize)>,
        },
{
    let n = input.unicode_len();
    let i = match find_char(input, ',') {
        Some(i) => i,
        None => {
            return Err(InstructionParseError {});
        },
    };
    let left = input.substring_char(0, i);
    proof {
        assert(left@ =~= input@.take(i as int));
    }
    let x = match parse_usize_str(left) {
        Some(x) => x,
        None => {
            return Err(InstructionParseError {});
        },
    };
    let right = input.substring_char(i + 1, n);
    proof {
        assert(right@ =~= input@.skip(i + 1));
    }
    match parse_usize_str(right) {
        Some(y) => Ok((x, y)),
        None => Err(InstructionParseError {}),
    }
}

/// Fold the move lines of a log over a board: a `player:DIR` line of a
/// known player replays that move, the other instruction shapes are
/// skipped, and anything else — an unparseable line or an unknown player
/// id — fails the replay.
pub open spec fn spec_replay_moves(g: GameView, lines: Seq<Seq<char>>) -> Option<GameView>
    decreases lines.len(),
{
    if lines.len() == 0 {
        Some(g)
    } else {
        match spec_parse_instruction(lines.first()) {
            None => None,
            Some(Instruction::Move { player, direction }) => if player < g.n_players() {
                spec_replay_moves(g.spec_apply_move(player as int, direction), lines.drop_first())
            } else {
                None
            },
            Some(_) => spec_replay_moves(g, lines.drop_first()),
        }
    }
}

/// The board state a whole log denotes: the header gives the size, the
/// player count and one distinct in-bounds starting position per player,
/// and the remaining lines replay as moves.
pub open spec fn spec_replay(lines: Seq<Seq<char>>) -> Option<GameView> {
    if lines.len() < 2 {
        None
    } else {
        match spec_parse_usize_pair(lines[0]) {
            None => None,
            Some(wh) => match spec_parse_usize(lines[1]) {
                None => None,
                Some(n) => {
                    if lines.len() - 2 < n {
                        None
                    } else if !(forall|k: int|
                        0 <= k < n ==> (#[trigger] spec_parse_usize_pair(lines[2 + k])) is Some) {
                        None
                    } else {
                        let heads = Seq::new(
                            n as nat,
                            |k: int| spec_parse_usize_pair(lines[2 + k])->Some_0,
                        );
                        if wh.0 >= 1 && wh.1 >= 1 && (forall|k: int|
                            0 <= k < n ==> (#[trigger] heads[k]).0 < wh.0 && heads[k].1 < wh.1)
                            && distinct_positions(heads) {
                            spec_replay_moves(
                                spec_init_game(wh.0, wh.1, heads),
                                lines.skip(2 + n),
                            )
                        } else {
                            None
                        }
                    }
                },
            },
        }
    }
}

/// Whether any two positions coincide.
fn has_duplicate(v: &Vec<(usize, usize)>) -> (r: bool)
    ensures
        r == !distinct_positions(v@),
{
    let n = v.len();
    let mut a: usize = 0;
    while a < n
        invariant
            0 <= a <= n,
            n == v@.len(),
            forall|i: int, j: int| 0 <= i < j < n && i < a ==> v@[i] != v@[j],
        decreases n - a,
    {
        let mut b: usize = a + 1;
        while b < n
            invariant
                a < b <= n,
                a < n,
                n == v@.len(),
                forall|j: int| (a as int) < j < b ==> v@[a as int] != v@[j],
            decreases n - b,
        {
            let ha = v[a];
            let hb = v[b];
            if ha.0 == hb.0 && ha.1 == hb.1 {
                assert(v@[a as int] == v@[b as int]);
                return true;
            }
            b = b + 1;
        }
        a = a + 1;
    }
    false
}

/// Rebuild, from the lines of a log file, the exact board state the
/// recorded game ended in.
pub fn replay_game(lines: &Vec<String>) -> (r: Result<TorusSnakeGame, InstructionParseError>)
    ensures
        match r {
            Ok(g) => g@.wf() && spec_replay(lines@.map_values(|s: String| s@)) == Some(g@),
            Err(e) => spec_replay(lines@.map_values(|s: String| s@)) is None,
        },
{
    let ghost lv = lines@.map_values(|s: String| s@);
    let total = lines.len();
    if total < 2 {
        return Err(InstructionParseError {});
    }
    let wh = match parse_usize_pair(lines[0].as_str()) {
        Ok(p) => p,
        Err(e) => {
            return Err(e);
        },
    };
    let n = match parse_usize_str(lines[1].as_str()) {
        Some(n) => n,
        None => {
            return Err(InstructionParseError {});
        },
    };
    if total - 2 < n {
        return Err(InstructionParseError {});
    }
    let mut heads: Vec<(usize, usize)> = Vec::new();
    let mut k: usize = 0;
    while k < n
        invariant
            0 <= k <= n,
            lv == lines@.map_values(|s: String| s@),
            total == lines@.len(),
            total >= 2,
            2 + n <= total,
            spec_parse_usize_pair(lv[0]) == Some(wh),
            spec_parse_usize(lv[1]) == Some(n),
            heads@.len() == k,
            forall|j: int|
                0 <= j < k ==> spec_parse_usize_pair(lv[2 + j]) == Some(#[trigger] heads@[j]),
            forall|j: int| 0 <= j < k ==> (#[trigger] heads@[j]).0 < wh.0 && heads@[j].1 < wh.1,
        decreases n - k,
    {
        proof {
            assert(lv[2 + k] == lines@[2 + k]@);
        }
        let pos = match parse_usize_pair(lines[2 + k].as_str()) {
            Ok(p) => p,
            Err(e) => {
                return Err(e);
            },
        };
        if pos.0 >= wh.0 || pos.1 >= wh.1 {
            proof {
                if forall|j: int|
                    0 <= j < n ==> (#[trigger] spec_parse_usize_pair(lv[2 + j])) is Some {
                    let sh = Seq::new(
                        n as nat,
                        |j: int| spec_parse_usize_pair(lv[2 + j])->Some_0,
                    );
                    assert(sh[k as int] == pos);
                }
            }
            return Err(InstructionParseError {});
        }
        heads.push(pos);
        k = k + 1;
    }
    if wh.0 == 0 || wh.1 == 0 {
        return Err(InstructionParseError {});
    }
    let ghost hv = heads@;
    let ghost spec_heads = Seq::new(n as nat, |j: int| spec_parse_usize_pair(lv[2 + j])->Some_0);
    proof {
        assert(spec_heads =~= heads@);
    }
    if has_duplicate(&heads) {
        return Err(InstructionParseError {});
    }
    let mut game = TorusSnakeGame::new(wh.0, wh.1, heads);
    let ghost g0 = game@;
    proof {
        assert forall|j: int|
            0 <= j < n implies (#[trigger] spec_parse_usize_pair(lv[2 + j])) is Some by {
            assert(spec_parse_usize_pair(lv[2 + j]) == Some(hv[j]));
        }
        assert forall|j: int|
            0 <= j < n implies (#[trigger] spec_heads[j]).0 < wh.0 && spec_heads[j].1 < wh.1 by {
            assert(hv[j].0 < wh.0 && hv[j].1 < wh.1);
        }
        assert(distinct_positions(spec_heads));
        assert(g0 == spec_init_game(wh.0, wh.1, spec_heads));
        assert(spec_replay(lv) == spec_replay_moves(g0, lv.skip(2 + n)));
    }
    let mut idx: usize = 2 + n;
    while idx < total
        invariant
            2 + n <= idx <= total,
            total == lines@.len(),
            lv == lines@.map_values(|s: String| s@),
            game@.wf(),
            game@.n_players() == n,
            spec_replay(lv) == spec_replay_moves(game@, lv.skip(idx as int)),
        decreases total - idx,
    {
        proof {
            assert(lv.skip(idx as int).first() == lv[idx as int]);
            assert(lv.skip(idx as int).drop_first() =~= lv.skip(idx + 1));
        }
        match Instruction::from_line(lines[idx].as_str()) {
            Err(e) => {
                return Err(e);
            },
            Ok(Instruction::Move { player, direction }) => {
                if player >= n {
                    return Err(InstructionParseError {});
                }
                let _ = game.move_player(player, direction);
            },
            Ok(_) => {},
        }
        idx = idx + 1;
    }
    proof {
        assert(lv.skip(total as int) =~= Seq::<Seq<char>>::empty());
    }
    Ok(game)
}

} // verus!
