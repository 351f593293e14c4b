//! Text renderings of a game: the setup header every player receives,
//! and the coloured board picture the verbose mode and the replay viewer
//! print.

use vstd::prelude::*;

use colored::Colorize;

use crate::digits::{all_digits, lemma_usize_digits_val, spec_usize_digits, usize_to_string};
use crate::game::{GameView, TorusSnakeGame};

verus! {

/// Relies on `colored::Colorize::{bold, green, red}` and on the
/// `Display` impl of `colored::ColoredString`, formatted with the
/// default format spec. Whether colour is on depends on the terminal and
/// the environment, but either way the rendering contains the styled
/// text verbatim: alone when colour is off, or between one escape prefix
/// and one reset suffix. That holds only of text the escaping pass
/// cannot rewrite, so the input is required to be pure digits, which
/// hold no escape sequence.
#[verifier::external_body]
fn styled_id(digits: &str, alive: bool) -> (r: String)
    requires
        all_digits(digits@),
    ensures
        exists|pre: Seq<char>, suf: Seq<char>| r@ == pre + digits@ + suf,
{
    let styled = if alive {
        digits.bold().green()
    } else {
        digits.bold().red()
    };
    format!("{}", styled)
}

/// Relies on `itertools::Itertools::intersperse`: the separator is
/// placed between each two consecutive items, so item `i` lands at index
/// `2 i` and every odd index holds the separator.
#[verifier::external_body]
fn intersperse_strings(parts: Vec<String>, sep: String) -> (r: Vec<String>)
    ensures
        parts@.len() == 0 ==> r@.len() == 0,
        parts@.len() > 0 ==> r@.len() == 2 * parts@.len() - 1,
        forall|i: int| 0 <= i < parts@.len() ==> (#[trigger] r@[2 * i])@ == parts@[i]@,
        forall|i: int| 0 <= i < r@.len() && i % 2 == 1 ==> (#[trigger] r@[i])@ == sep@,
{
    itertools::Itertools::intersperse(parts.into_iter(), sep).collect()
}

/// `parts` joined by `sep`.
pub open spec fn spec_join(parts: Seq<Seq<char>>, sep: Seq<char>) -> Seq<char>
    decreases parts.len(),
{
    if parts.len() == 0 {
        Seq::empty()
    } else if parts.len() == 1 {
        parts[0]
    } else {
        spec_join(parts.drop_last(), sep) + sep + parts.last()
    }
}

/// Join the parts with the separator.
fn join_strings(parts: Vec<String>, sep: &str) -> (r: String)
    ensures
        r@ == spec_join(parts@.map_values(|s: String| s@), sep@),
{
    let ghost ps = parts@.map_values(|s: String| s@);
    let ghost sep_view = sep@;
    let pieces = intersperse_strings(parts, String::from_str(sep));
    let m = pieces.len();
    let mut acc = String::new();
    let mut i: usize = 0;
    while i < m
        invariant
            0 <= i <= m,
            m == pieces@.len(),
            ps.len() == 0 ==> m == 0,
            ps.len() > 0 ==> m == 2 * ps.len() - 1,
            forall|j: int| 0 <= j < ps.len() ==> (#[trigger] pieces@[2 * j])@ == ps[j],
            forall|j: int| 0 <= j < m && j % 2 == 1 ==> (#[trigger] pieces@[j])@ == sep_view,
            i == 0 ==> acc@ == Seq::<char>::empty(),
            i % 2 == 1 ==> acc@ == spec_join(ps.take((i + 1) / 2), sep_view),
            i > 0 && i % 2 == 0 ==> acc@ == spec_join(ps.take(i as int / 2), sep_view) + sep_view,
        decreases m - i,
    {
        let piece = &pieces[i];
        proof {
            if i % 2 == 0 {
                let j = i as int / 2;
                assert(pieces@[2 * j]@ == ps[j as int]);
                if i > 0 {
                    assert(ps.take(j + 1).drop_last() =~= ps.take(j as int));
                    assert(ps.take(j + 1).last() == ps[j as int]);
                }
                assert(ps.take(1)[0] == ps[0]);
            }
        }
        acc.append(piece.as_str());
        i = i + 1;
    }
    proof {
        if ps.len() > 0 {
            assert(m % 2 == 1);
            assert((m + 1) / 2 == ps.len());
            assert(ps.take(ps.len() as int) =~= ps);
        }
    }
    acc
}

/// The `x,y` rendering of one starting position.
pub open spec fn spec_pos_pair(pos: (usize, usize)) -> Seq<char> {
    spec_usize_digits(pos.0 as nat) + seq![','] + spec_usize_digits(pos.1 as nat)
}

/// The setup header of a game: the board size, the number of players,
/// and one starting position per line. Every player receives it at
/// spawn, and it opens the log file.
pub open spec fn spec_setup_header(g: GameView) -> Seq<char> {
    spec_usize_digits(g.width as nat) + seq![','] + spec_usize_digits(g.height as nat) + seq!['\n']
        + spec_usize_digits(g.heads.len() as nat) + seq!['\n'] + spec_join(
        g.heads.map_values(|p: (usize, usize)| spec_pos_pair(p)),
        seq!['\n'],
    )
}

/// What a cell may render as: the middle dot on a free cell, the bare
/// decimal id of the owner on a trail cell, and on a head cell the
/// decimal id between one styling prefix and one styling suffix (either
/// possibly empty).
pub open spec fn spec_cell_rendering(g: GameView, pos: (usize, usize), t: Seq<char>) -> bool {
    match g.cell(pos) {
        None => t == seq!['\u{b7}'],
        Some(p) => if g.heads[p as int] != pos {
            t == spec_usize_digits(p as nat)
        } else {
            exists|pre: Seq<char>, suf: Seq<char>| t == pre + spec_usize_digits(p as nat) + suf
        },
    }
}

/// `n` dashes.
pub open spec fn spec_dashes(n: nat) -> Seq<char>
    decreases n,
{
    if n == 0 {
        Seq::empty()
    } else {
        spec_dashes((n - 1) as nat) + seq!['-']
    }
}

/// The horizontal border of a board picture: a `+`, one dash per column,
/// a `+`.
pub open spec fn spec_border(width: nat) -> Seq<char> {
    seq!['+'] + spec_dashes(width) + seq!['+']
}

/// The given texts, concatenated in order.
pub open spec fn concat_texts(ts: Seq<Seq<char>>) -> Seq<char>
    decreases ts.len(),
{
    if ts.len() == 0 {
        Seq::empty()
    } else {
        concat_texts(ts.drop_last()) + ts.last()
    }
}

/// One line of the board picture: the renderings of row `y`'s cells in
/// column order, framed by `|` and ended by a newline.
pub open spec fn spec_row_line(g: GameView, y: int, t: Seq<char>) -> bool {
    exists|cells: Seq<Seq<char>>|
        {
            &&& cells.len() == g.width
            &&& (forall|x: int|
                0 <= x < g.width ==> spec_cell_rendering(
                    g,
                    (x as usize, y as usize),
                    #[trigger] cells[x],
                ))
            &&& t == seq!['|'] + concat_texts(cells) + seq!['|', '\n']
        }
}

/// The whole board picture: the border, a newline, one line per board
/// row from top to bottom, and the closing border.
pub open spec fn spec_board_rendering(g: GameView, t: Seq<char>) -> bool {
    exists|rows: Seq<Seq<char>>|
        {
            &&& rows.len() == g.height
            &&& (forall|y: int| 0 <= y < g.height ==> spec_row_line(g, y, #[trigger] rows[y]))
            &&& t == spec_border(g.width as nat) + seq!['\n'] + concat_texts(rows) + spec_border(
                g.width as nat,
            )
        }
}

/// Render `x,y`.
fn pos_pair_string(pos: (usize, usize)) -> (r: String)
    ensures
        r@ == spec_pos_pair(pos),
{
    proof {
        reveal_strlit(",");
    }
    let r = usize_to_string(pos.0).concat(",").concat(usize_to_string(pos.1).as_str());
    proof {
        assert(r@ =~= spec_pos_pair(pos));
    }
    r
}

impl TorusSnakeGame {
    /// The setup header for this game.
    pub fn setup_string(&self) -> (r: String)
        ensures
            r@ == spec_setup_header(self@),
    {
        proof {
            reveal_strlit(",");
            reveal_strlit("\n");
        }
        let n_players = self.head_positions.len();
        let mut parts: Vec<String> = Vec::new();
        let mut p: usize = 0;
        while p < n_players
            invariant
                0 <= p <= n_players,
                n_players == self.head_positions@.len(),
                parts@.len() == p,
                forall|j: int|
                    0 <= j < p ==> (#[trigger] parts@[j])@ == spec_pos_pair(
                        self.head_positions@[j],
                    ),
            decreases n_players - p,
        {
            parts.push(pos_pair_string(self.head_positions[p]));
            p = p + 1;
        }
        let ghost parts_view = parts@;
        let body = join_strings(parts, "\n");
        proof {
            assert(","@ =~= seq![',']);
            assert("\n"@ =~= seq!['\n']);
            assert(parts_view.map_values(|s: String| s@) =~= self@.heads.map_values(
                |q: (usize, usize)| spec_pos_pair(q),
            ));
        }
        let r = usize_to_string(self.width).concat(",").concat(
            usize_to_string(self.height).as_str(),
        ).concat("\n").concat(usize_to_string(n_players).as_str()).concat("\n").concat(
            body.as_str(),
        );
        proof {
            assert(r@ =~= spec_setup_header(self@));
        }
        r
    }

    /// The picture of a cell: the decimal id of its owner — bold and
    /// green for the head of a living player, bold and red for the head
    /// of a dead one, bare on a trail cell — or a middle dot for a free
    /// cell. The styling depends on the terminal, so a head cell is
    /// pinned up to one styling prefix and suffix around the id.
    pub fn display_cell(&self, pos: (usize, usize)) -> (r: String)
        requires
            self@.wf(),
            self@.in_bounds(pos),
        ensures
            spec_cell_rendering(self@, pos, r@),
    {
        proof {
            reveal_strlit("\u{b7}");
        }
        match self.get(pos) {
            Some(player) => {
                let disp = usize_to_string(player);
                let head = self.head_positions[player];
                if head.0 != pos.0 || head.1 != pos.1 {
                    return disp;
                }
                proof {
                    lemma_usize_digits_val(player as nat);
                }
                styled_id(disp.as_str(), self.alive_players[player])
            },
            None => {
                let r = String::from_str("\u{b7}");
                proof {
                    assert(r@ =~= seq!['\u{b7}']);
                }
                r
            },
        }
    }

    /// The board picture: the grid between horizontal borders, one
    /// `|`-framed line per board row, each cell rendered as
    /// `display_cell` says.
    pub fn board_string(&self) -> (r: String)
        requires
            self@.wf(),
        ensures
            spec_board_rendering(self@, r@),
    {
        proof {
            reveal_strlit("+");
            reveal_strlit("-");
            reveal_strlit("|");
            reveal_strlit("|\n");
            reveal_strlit("\n");
        }
        let ghost g = self@;
        let mut border = String::from_str("+");
        let mut x: usize = 0;
        while x < self.width
            invariant
                x <= self.width,
                border@ == seq!['+'] + spec_dashes(x as nat),
            decreases self.width - x,
        {
            border.append("-");
            proof {
                reveal_strlit("-");
                assert(border@ =~= seq!['+'] + spec_dashes((x + 1) as nat));
            }
            x = x + 1;
        }
        border.append("+");
        proof {
            assert(border@ =~= spec_border(g.width as nat));
        }
        let mut r = border.clone();
        r.append("\n");
        let ghost mut rows_txt: Seq<Seq<char>> = Seq::empty();
        proof {
            assert(concat_texts(rows_txt) =~= Seq::<char>::empty());
            assert(r@ =~= spec_border(g.width as nat) + seq!['\n'] + concat_texts(rows_txt));
        }
        let mut y: usize = 0;
        while y < self.height
            invariant
                self@ == g,
                g.wf(),
                y <= self.height,
                border@ == spec_border(g.width as nat),
                rows_txt.len() == y,
                forall|yy: int| 0 <= yy < y ==> spec_row_line(g, yy, #[trigger] rows_txt[yy]),
                r@ == spec_border(g.width as nat) + seq!['\n'] + concat_texts(rows_txt),
            decreases self.height - y,
        {
            r.append("|");
            let ghost mut cells_txt: Seq<Seq<char>> = Seq::empty();
            proof {
                reveal_strlit("|");
                assert(concat_texts(cells_txt) =~= Seq::<char>::empty());
                assert(r@ =~= spec_border(g.width as nat) + seq!['\n'] + concat_texts(rows_txt)
                    + seq!['|'] + concat_texts(cells_txt));
            }
            let mut x: usize = 0;
            while x < self.width
                invariant
                    self@ == g,
                    g.wf(),
                    y < self.height,
                    self.height == g.height,
                    self.width == g.width,
                    x <= self.width,
                    cells_txt.len() == x,
                    forall|xx: int|
                        0 <= xx < x ==> spec_cell_rendering(
                            g,
                            (xx as usize, y as usize),
                            #[trigger] cells_txt[xx],
                        ),
                    r@ == spec_border(g.width as nat) + seq!['\n'] + concat_texts(rows_txt)
                        + seq!['|'] + concat_texts(cells_txt),
                decreases self.width - x,
            {
                let cell = self.display_cell((x, y));
                r.append(cell.as_str());
                proof {
                    let before = cells_txt;
                    cells_txt = cells_txt.push(cell@);
                    assert(cells_txt.drop_last() =~= before);
                    assert(cells_txt.last() == cell@);
                    assert(r@ =~= spec_border(g.width as nat) + seq!['\n'] + concat_texts(
                        rows_txt,
                    ) + seq!['|'] + concat_texts(cells_txt));
                }
                x = x + 1;
            }
            r.append("|\n");
            proof {
                reveal_strlit("|\n");
                let row = seq!['|'] + concat_texts(cells_txt) + seq!['|', '\n'];
                assert(cells_txt.len() == g.width);
                assert(spec_row_line(g, y as int, row));
                let before = rows_txt;
                rows_txt = rows_txt.push(row);
                assert(rows_txt.drop_last() =~= before);
                assert(rows_txt.last() == row);
                assert(r@ =~= spec_border(g.width as nat) + seq!['\n'] + concat_texts(rows_txt));
            }
            y = y + 1;
        }
        let r = r.concat(border.as_str());
        proof {
            assert(rows_txt.len() == g.height);
            assert(r@ =~= spec_border(g.width as nat) + seq!['\n'] + concat_texts(rows_txt)
                + spec_border(g.width as nat));
            assert(spec_board_rendering(g, r@));
        }
        r
    }
}

} // verus!
