//! Torus-grid snake board: directions, movement with wrap-around,
//! collision, and the setup header that describes a game on the wire.

use vstd::prelude::*;

use crate::digits::{spec_usize_digits, usize_to_string};
use crate::text::{spec_trim, trim_bounds};

verus! {

/// One of the four cardinal directions a snake can move in.
#[derive(Clone, Copy, PartialEq, Eq, Structural, Debug)]
pub enum Direction {
    North,
    South,
    East,
    West,
}

/// Returned when a line does not denote a direction.
#[derive(Clone, Copy, PartialEq, Eq, Structural, Debug)]
pub struct InvalidDirection;

/// The single uppercase letter that encodes a direction on the wire.
pub open spec fn spec_dir_char(d: Direction) -> char {
    match d {
        Direction::North => 'N',
        Direction::South => 'S',
        Direction::East => 'E',
        Direction::West => 'W',
    }
}

/// The direction a single character denotes, if any.
pub open spec fn spec_char_dir(c: char) -> Option<Direction> {
    if c == 'N' {
        Some(Direction::North)
    } else if c == 'S' {
        Some(Direction::South)
    } else if c == 'E' {
        Some(Direction::East)
    } else if c == 'W' {
        Some(Direction::West)
    } else {
        None
    }
}

/// How a line of text parses as a direction: after trimming surrounding
/// whitespace, exactly one of the four uppercase letters remains.
pub open spec fn spec_parse_direction(s: Seq<char>) -> Option<Direction> {
    let t = spec_trim(s);
    if t.len() == 1 {
        spec_char_dir(t[0])
    } else {
        None
    }
}

impl Direction {
    /// The unit offset this direction applies to a coordinate pair,
    /// as (dx, dy); y grows southward.
    pub open spec fn spec_coord_shift(self) -> (i32, i32) {
        match self {
            Direction::North => (0i32, -1i32),
            Direction::South => (0i32, 1i32),
            Direction::East => (1i32, 0i32),
            Direction::West => (-1i32, 0i32),
        }
    }

    /// The direction that undoes this one.
    pub open spec fn spec_opposite(self) -> Direction {
        match self {
            Direction::North => Direction::South,
            Direction::South => Direction::North,
            Direction::East => Direction::West,
            Direction::West => Direction::East,
        }
    }

    pub fn coord_shift(&self) -> (r: (i32, i32))
        ensures
            r == self.spec_coord_shift(),
    {
        match self {
            Direction::North => (0, -1),
            Direction::South => (0, 1),
            Direction::East => (1, 0),
            Direction::West => (-1, 0),
        }
    }

    pub fn opposite(&self) -> (r: Direction)
        ensures
            r == self.spec_opposite(),
    {
        match self {
            Direction::North => Direction::South,
            Direction::South => Direction::North,
            Direction::East => Direction::West,
            Direction::West => Direction::East,
        }
    }

    /// The wire encoding of this direction.
    pub fn letter(&self) -> (r: &'static str)
        ensures
            r@ == seq![spec_dir_char(*self)],
    {
        proof {
            reveal_strlit("N");
            reveal_strlit("S");
            reveal_strlit("E");
            reveal_strlit("W");
        }
        let r = match self {
            Direction::North => "N",
            Direction::South => "S",
            Direction::East => "E",
            Direction::West => "W",
        };
        proof {
            assert(r@ =~= seq![spec_dir_char(*self)]);
        }
        r
    }

    /// Parse a line as a direction: one uppercase letter, surrounding
    /// whitespace ignored.
    pub fn parse(s: &str) -> (r: Result<Direction, InvalidDirection>)
        ensures
            match r {
                Ok(d) => spec_parse_direction(s@) == Some(d),
                Err(e) => spec_parse_direction(s@) == None::<Direction>,
            },
    {
        let bounds = trim_bounds(s);
        let (start, end) = bounds;
        if end - start != 1 {
            return Err(InvalidDirection);
        }
        let c = s.get_char(start);
        proof {
            assert(spec_trim(s@)[0] == s@[start as int]);
        }
        match c {
            'N' => Ok(Direction::North),
            'S' => Ok(Direction::South),
            'E' => Ok(Direction::East),
            'W' => Ok(Direction::West),
            _ => Err(InvalidDirection),
        }
    }
}

impl core::str::FromStr for Direction {
    type Err = InvalidDirection;

    /// Forwards to [`Direction::parse`], which carries the contract.
    fn from_str(s: &str) -> Result<Direction, InvalidDirection> {
        Direction::parse(s)
    }
}

/// The mathematical state of a game: board dimensions, the grid of cell
/// owners, each player's head position, and which players the board
/// still counts as alive.
#[verifier::ext_equal]
pub ghost struct GameView {
    pub width: usize,
    pub height: usize,
    /// `cells[y][x]` is the id of the player whose trail covers the
    /// cell, if any.
    pub cells: Seq<Seq<Option<usize>>>,
    pub heads: Seq<(usize, usize)>,
    pub alive: Seq<bool>,
}

impl GameView {
    pub open spec fn n_players(self) -> int {
        self.heads.len() as int
    }

    pub open spec fn in_bounds(self, pos: (usize, usize)) -> bool {
        pos.0 < self.width && pos.1 < self.height
    }

    pub open spec fn cell(self, pos: (usize, usize)) -> Option<usize> {
        self.cells[pos.1 as int][pos.0 as int]
    }

    /// The grid has the advertised dimensions.
    pub open spec fn cells_shaped(self) -> bool {
        &&& self.cells.len() == self.height
        &&& forall|y: int| 0 <= y < self.height ==> (#[trigger] self.cells[y]).len() == self.width
    }

    /// Well-formedness: a non-degenerate board; one head and one
    /// liveness flag per player; every head in bounds and owning its
    /// cell; every owned cell owned by an actual player.
    pub open spec fn wf(self) -> bool {
        &&& self.width >= 1
        &&& self.height >= 1
        &&& self.cells_shaped()
        &&& self.alive.len() == self.heads.len()
        &&& forall|p: int|
            0 <= p < self.heads.len() ==> self.in_bounds(#[trigger] self.heads[p])
        &&& forall|p: int|
            0 <= p < self.heads.len() ==> self.cell(#[trigger] self.heads[p]) == Some(p as usize)
        &&& forall|y: int, x: int|
            0 <= y < self.height && 0 <= x < self.width ==> ((#[trigger] self.cells[y][x])
                matches Some(p) ==> p < self.heads.len())
    }

    /// One step from `pos` in direction `d`, wrapping at every edge.
    pub open spec fn spec_shift(self, pos: (usize, usize), d: Direction) -> (usize, usize) {
        match d {
            Direction::North => (
                pos.0,
                if pos.1 == 0 {
                    (self.height - 1) as usize
                } else {
                    (pos.1 - 1) as usize
                },
            ),
            Direction::South => (
                pos.0,
                if pos.1 + 1 == self.height {
                    0usize
                } else {
                    (pos.1 + 1) as usize
                },
            ),
            Direction::East => (
                if pos.0 + 1 == self.width {
                    0usize
                } else {
                    (pos.0 + 1) as usize
                },
                pos.1,
            ),
            Direction::West => (
                if pos.0 == 0 {
                    (self.width - 1) as usize
                } else {
                    (pos.0 - 1) as usize
                },
                pos.1,
            ),
        }
    }

    /// The cell player `p` would move onto.
    pub open spec fn spec_move_target(self, p: int, d: Direction) -> (usize, usize) {
        self.spec_shift(self.heads[p], d)
    }

    /// Whether that cell is free, i.e. whether the move commits.
    pub open spec fn spec_move_succeeds(self, p: int, d: Direction) -> bool {
        self.cell(self.spec_move_target(p, d)) is None
    }

    /// The state after player `p` attempts to move in direction `d`: on
    /// a free target the head moves and the cell becomes owned by `p`;
    /// on an occupied target the board is unchanged except that `p` is
    /// no longer counted alive.
    pub open spec fn spec_apply_move(self, p: int, d: Direction) -> GameView {
        let t = self.spec_move_target(p, d);
        if self.spec_move_succeeds(p, d) {
            GameView {
                heads: self.heads.update(p, t),
                cells: self.cells.update(
                    t.1 as int,
                    self.cells[t.1 as int].update(t.0 as int, Some(p as usize)),
                ),
                ..self
            }
        } else {
            GameView { alive: self.alive.update(p, false), ..self }
        }
    }
}

/// The id that owns a starting cell after all players have been placed
/// in order; when two starting positions coincide the later placement
/// wins, as placement overwrites.
pub open spec fn spec_start_owner(heads: Seq<(usize, usize)>, pos: (usize, usize)) -> Option<
    usize,
>
    decreases heads.len(),
{
    if heads.len() == 0 {
        None
    } else if heads.last() == pos {
        Some((heads.len() - 1) as usize)
    } else {
        spec_start_owner(heads.drop_last(), pos)
    }
}

/// The freshly created game: every player placed on its starting cell,
/// every player alive, every other cell free.
pub open spec fn spec_init_game(width: usize, height: usize, heads: Seq<(usize, usize)>) -> GameView {
    GameView {
        width: width,
        height: height,
        cells: Seq::new(
            height as nat,
            |y: int| Seq::new(width as nat, |x: int| spec_start_owner(heads, (x as usize, y as usize))),
        ),
        heads: heads,
        alive: Seq::new(heads.len(), |p: int| true),
    }
}

proof fn lemma_start_owner(heads: Seq<(usize, usize)>, pos: (usize, usize))
    requires
        heads.len() <= usize::MAX,
    ensures
        match spec_start_owner(heads, pos) {
            Some(q) => q < heads.len() && heads[q as int] == pos,
            None => forall|i: int| 0 <= i < heads.len() ==> heads[i] != pos,
        },
    decreases heads.len(),
{
    if heads.len() > 0 && heads.last() != pos {
        lemma_start_owner(heads.drop_last(), pos);
        match spec_start_owner(heads.drop_last(), pos) {
            Some(q) => {
                assert(heads.drop_last()[q as int] == pos);
                assert(heads[q as int] == heads.drop_last()[q as int]);
            },
            None => {
                assert forall|i: int| 0 <= i < heads.len() implies heads[i] != pos by {
                    if i < heads.len() - 1 {
                        assert(heads.drop_last()[i] != pos);
                        assert(heads[i] == heads.drop_last()[i]);
                    } else {
                        assert(heads[i] == heads.last());
                    }
                }
            },
        }
    }
}

/// The board for one game of torus snake: a grid of cells owned by the
/// players whose trails cover them, one head per player, and the set of
/// players the board still shows as alive.
pub struct TorusSnakeGame {
    pub board: Vec<Vec<Option<usize>>>,
    pub height: usize,
    pub width: usize,
    pub head_positions: Vec<(usize, usize)>,
    pub alive_players: Vec<bool>,
}

impl View for TorusSnakeGame {
    type V = GameView;

    open spec fn view(&self) -> GameView {
        GameView {
            width: self.width,
            height: self.height,
            cells: self.board@.map_values(|row: Vec<Option<usize>>| row@),
            heads: self.head_positions@,
            alive: self.alive_players@,
        }
    }
}

impl TorusSnakeGame {
    /// Create a board of the given size with each player sitting on its
    /// starting position, all players alive.
    pub fn new(width: usize, height: usize, starting_positions: Vec<(usize, usize)>) -> (r:
        TorusSnakeGame)
        requires
            width >= 1,
            height >= 1,
            forall|i: int|
                0 <= i < starting_positions@.len() ==> (#[trigger] starting_positions@[i]).0
                    < width && starting_positions@[i].1 < height,
            forall|i: int, j: int|
                0 <= i < j < starting_positions@.len() ==> starting_positions@[i]
                    != starting_positions@[j],
        ensures
            r@ == spec_init_game(width, height, starting_positions@),
            r@.wf(),
    {
        let n_players = starting_positions.len();
        let ghost sp = starting_positions@;
        let mut board: Vec<Vec<Option<usize>>> = Vec::new();
        let mut y: usize = 0;
        while y < height
            invariant
                0 <= y <= height,
                board@.len() == y,
                forall|yy: int|
                    0 <= yy < y ==> (#[trigger] board@[yy])@.len() == width && forall|xx: int|
                        0 <= xx < width ==> board@[yy]@[xx] == None::<usize>,
            decreases height - y,
        {
            let mut row: Vec<Option<usize>> = Vec::new();
            let mut x: usize = 0;
            while x < width
                invariant
                    0 <= x <= width,
                    row@.len() == x,
                    forall|xx: int| 0 <= xx < x ==> row@[xx] == None::<usize>,
                decreases width - x,
            {
                row.push(None);
                x = x + 1;
            }
            board.push(row);
            y = y + 1;
        }
        let mut p: usize = 0;
        while p < n_players
            invariant
                0 <= p <= n_players,
                n_players == sp.len(),
                starting_positions@ == sp,
                board@.len() == height,
                forall|yy: int| 0 <= yy < height ==> (#[trigger] board@[yy])@.len() == width,
                forall|i: int| 0 <= i < sp.len() ==> (#[trigger] sp[i]).0 < width && sp[i].1 < height,
                forall|yy: int, xx: int|
                    0 <= yy < height && 0 <= xx < width ==> #[trigger] board@[yy]@[xx]
                        == spec_start_owner(sp.take(p as int), (xx as usize, yy as usize)),
            decreases n_players - p,
        {
            let pos = starting_positions[p];
            let row = &mut board[pos.1];
            row[pos.0] = Some(p);
            proof {
                assert(sp.take(p + 1).drop_last() =~= sp.take(p as int));
                assert(sp.take(p + 1).last() == sp[p as int]);
            }
            p = p + 1;
        }
        let mut alive: Vec<bool> = Vec::new();
        let mut q: usize = 0;
        while q < n_players
            invariant
                0 <= q <= n_players,
                alive@.len() == q,
                forall|i: int| 0 <= i < q ==> alive@[i] == true,
            decreases n_players - q,
        {
            alive.push(true);
            q = q + 1;
        }
        let r = TorusSnakeGame {
            board,
            height,
            width,
            head_positions: starting_positions,
            alive_players: alive,
        };
        proof {
            assert(sp.take(sp.len() as int) =~= sp);
            let v = spec_init_game(width, height, sp);
            assert(r@.cells =~~= v.cells);
            assert(r@.alive =~~= v.alive);
            assert(r@ =~~= v);
            assert forall|i: int| 0 <= i < v.heads.len() implies v.cell(#[trigger] v.heads[i])
                == Some(i as usize) by {
                lemma_start_owner(sp, sp[i]);
                if spec_start_owner(sp, sp[i]) is None {
                    assert(sp[i] != sp[i]);
                }
                let q = spec_start_owner(sp, sp[i]) ->Some_0;
                if q != i {
                    assert(sp[q as int] == sp[i]);
                    assert(false);
                }
            }
            assert forall|yy: int, xx: int|
                0 <= yy < v.height && 0 <= xx < v.width implies ((#[trigger] v.cells[yy][xx])
                matches Some(pl) ==> pl < v.heads.len()) by {
                lemma_start_owner(sp, (xx as usize, yy as usize));
            }
            assert(r@.wf());
        }
        r
    }

    /// One step from `pos` in the given direction, wrapping at the
    /// board's edges; the result is always in bounds.
    pub fn shift_coords(&self, pos: (usize, usize), direction: Direction) -> (r: (usize, usize))
        requires
            pos.0 < self@.width,
            pos.1 < self@.height,
        ensures
            r == self@.spec_shift(pos, direction),
            self@.in_bounds(r),
    {
        let (x, y) = pos;
        match direction {
            Direction::North => (x, if y == 0 { self.height - 1 } else { y - 1 }),
            Direction::South => (x, if y + 1 == self.height { 0 } else { y + 1 }),
            Direction::East => (if x + 1 == self.width { 0 } else { x + 1 }, y),
            Direction::West => (if x == 0 { self.width - 1 } else { x - 1 }, y),
        }
    }

    /// The player whose trail covers `pos`, if any.
    pub fn get(&self, pos: (usize, usize)) -> (r: Option<usize>)
        requires
            self@.cells_shaped(),
            self@.in_bounds(pos),
        ensures
            r == self@.cell(pos),
    {
        self.board[pos.1][pos.0]
    }

    /// Mark `pos` as covered by `player`'s trail. A raw cell write: the
    /// caller is responsible for keeping the board consistent.
    pub fn set_player(&mut self, pos: (usize, usize), player: usize)
        requires
            old(self)@.cells_shaped(),
            old(self)@.in_bounds(pos),
        ensures
            final(self)@ == (GameView {
                cells: old(self)@.cells.update(
                    pos.1 as int,
                    old(self)@.cells[pos.1 as int].update(pos.0 as int, Some(player)),
                ),
                ..old(self)@
            }),
    {
        let row = &mut self.board[pos.1];
        row[pos.0] = Some(player);
        proof {
            assert(self@.cells =~~= (GameView {
                cells: old(self)@.cells.update(
                    pos.1 as int,
                    old(self)@.cells[pos.1 as int].update(pos.0 as int, Some(player)),
                ),
                ..old(self)@
            }).cells);
            assert(self@ =~~= (GameView {
                cells: old(self)@.cells.update(
                    pos.1 as int,
                    old(self)@.cells[pos.1 as int].update(pos.0 as int, Some(player)),
                ),
                ..old(self)@
            }));
        }
    }

    /// Attempt to move `player` one step in `direction`: commit the move
    /// onto a free cell and return true, or mark the player dead on the
    /// board and return false. The board is the sole judge of a losing
    /// move, and a cell, once owned, never clears.
    pub fn move_player(&mut self, player: usize, direction: Direction) -> (r: bool)
        requires
            old(self)@.wf(),
            player < old(self)@.n_players(),
        ensures
            r == old(self)@.spec_move_succeeds(player as int, direction),
            final(self)@ == old(self)@.spec_apply_move(player as int, direction),
            final(self)@.wf(),
    {
        let pos = self.head_positions[player];
        let new_pos = self.shift_coords(pos, direction);
        if self.get(new_pos).is_none() {
            self.head_positions[player] = new_pos;
            self.set_player(new_pos, player);
            proof {
                let v = old(self)@.spec_apply_move(player as int, direction);
                assert(self@ =~~= v);
                assert forall|p: int| 0 <= p < v.heads.len() implies v.cell(#[trigger] v.heads[p])
                    == Some(p as usize) by {
                    if p != player && v.heads[p] == new_pos {
                        assert(old(self)@.cell(old(self)@.heads[p]) == Some(p as usize));
                    }
                }
                assert(self@.wf());
            }
            true
        } else {
            self.alive_players[player] = false;
            proof {
                let v = old(self)@.spec_apply_move(player as int, direction);
                assert(self@ =~~= v);
            }
            false
        }
    }
}

/// No cell is ever cleared during a game: whatever move any player
/// attempts, a cell that has an owner keeps that owner. Trails persist
/// for the whole game, so the board only fills, and running out of free
/// cells is the sole elimination mechanism.
pub proof fn lemma_cells_never_clear(g: GameView, p: int, d: Direction)
    requires
        g.wf(),
        0 <= p < g.n_players(),
    ensures
        forall|pos: (usize, usize)|
            g.in_bounds(pos) && g.cell(pos) is Some ==> g.spec_apply_move(p, d).cell(pos)
                == g.cell(pos),
{
    if g.spec_move_succeeds(p, d) {
        let t = g.spec_move_target(p, d);
        assert forall|pos: (usize, usize)|
            g.in_bounds(pos) && g.cell(pos) is Some implies g.spec_apply_move(p, d).cell(pos)
            == g.cell(pos) by {
            assert(g.cell(t) is None);
            assert(pos != t);
        }
    }
}

/// On a well-formed board, shifting an in-bounds cell stays in bounds,
/// and shifting in a direction and then in its opposite returns to the
/// original cell.
pub proof fn lemma_shift_round_trip(g: GameView, pos: (usize, usize), d: Direction)
    requires
        g.width >= 1,
        g.height >= 1,
        g.in_bounds(pos),
    ensures
        g.in_bounds(g.spec_shift(pos, d)),
        g.spec_shift(g.spec_shift(pos, d), d.spec_opposite()) == pos,
{
}

} // verus!
