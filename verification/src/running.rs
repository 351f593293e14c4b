//! The per-turn decision logic of one game: player statuses, the
//! messages the orchestrator hands to the broadcast writer, and the
//! round-robin turn state machine that applies moves, attributes every
//! death to its cause, and provably terminates.
//!
//! The turn loop itself lives outside the library, because waiting on a
//! child process is what it does; every decision it takes is a method
//! here. The driver asks `next_to_ask` whom to query, reads that
//! player's line (or times out), and hands the outcome back through
//! `apply_line` or `apply_timeout`, forwarding the returned messages to
//! the broadcast writer.

use vstd::prelude::*;

use crate::game::{spec_parse_direction, Direction, GameView, TorusSnakeGame};

verus! {

/// Why a player lost: a move onto an occupied cell, no move within the
/// time limit, or a line that does not parse as a direction.
#[derive(Clone, Copy, PartialEq, Eq, Structural, Debug)]
pub enum LossReason {
    LosingMove,
    TimeOut,
    InvalidInput,
}

/// A player's outcome of one finished game.
#[derive(Clone, Copy, PartialEq, Eq, Structural, Debug)]
pub enum PlayerResult {
    Winner,
    Loser(LossReason),
}

/// A player's state while a game runs.
#[derive(Clone, Copy, PartialEq, Eq, Structural, Debug)]
pub enum PlayerStatus {
    Alive,
    Dead(LossReason),
}

impl PlayerStatus {
    pub open spec fn spec_is_alive(self) -> bool {
        self is Alive
    }

    pub fn is_alive(&self) -> (r: bool)
        ensures
            r == self.spec_is_alive(),
    {
        match self {
            PlayerStatus::Alive => true,
            PlayerStatus::Dead(_) => false,
        }
    }
}

/// The outcome a status collapses to once the game is over: still alive
/// means the player won.
pub open spec fn spec_result_of(s: PlayerStatus) -> PlayerResult {
    match s {
        PlayerStatus::Alive => PlayerResult::Winner,
        PlayerStatus::Dead(reason) => PlayerResult::Loser(reason),
    }
}

impl core::convert::From<PlayerStatus> for PlayerResult {
    fn from(value: PlayerStatus) -> (r: Self) {
        match value {
            PlayerStatus::Alive => PlayerResult::Winner,
            PlayerStatus::Dead(reason) => PlayerResult::Loser(reason),
        }
    }
}

impl vstd::std_specs::convert::FromSpecImpl<PlayerStatus> for PlayerResult {
    open spec fn obeys_from_spec() -> bool {
        true
    }

    open spec fn from_spec(t: PlayerStatus) -> Self {
        spec_result_of(t)
    }
}

impl PlayerResult {
    pub open spec fn spec_is_winner(self) -> bool {
        self is Winner
    }

    pub fn is_winner(&self) -> (r: bool)
        ensures
            r == self.spec_is_winner(),
    {
        match self {
            PlayerResult::Winner => true,
            PlayerResult::Loser(_) => false,
        }
    }
}

/// An event the orchestrator hands to the broadcast writer, which alone
/// talks to the children and the log.
#[derive(Clone, Debug)]
pub enum Message {
    /// Announce the move a player attempted to everyone else, and log it.
    CommunicateMove { direction: Direction, player: usize },
    /// Ask one player for its move.
    AskMove(usize),
    /// Remove a player: tell it to stop, tell the others it is out.
    Kill(usize),
    /// Send the setup header to every player, and log it.
    SendHeader(String),
}

/// Mark a player dead for the given reason and produce the `Kill`
/// message that removes it from the running game.
pub fn kill_player(player: usize, reason: LossReason, player_statuses: &mut Vec<PlayerStatus>) -> (
    msg: Message)
    requires
        player < old(player_statuses)@.len(),
    ensures
        final(player_statuses)@ == old(player_statuses)@.update(
            player as int,
            PlayerStatus::Dead(reason),
        ),
        msg == Message::Kill(player),
{
    player_statuses[player] = PlayerStatus::Dead(reason);
    Message::Kill(player)
}

pub open spec fn alive_weight(s: PlayerStatus) -> nat {
    if s.spec_is_alive() {
        1nat
    } else {
        0nat
    }
}

/// How many of the statuses are still alive.
pub open spec fn count_alive(ss: Seq<PlayerStatus>) -> nat
    decreases ss.len(),
{
    if ss.len() == 0 {
        0nat
    } else {
        count_alive(ss.drop_last()) + alive_weight(ss.last())
    }
}

/// Replacing one status changes the count by the difference of the two
/// weights.
pub proof fn lemma_count_alive_update(ss: Seq<PlayerStatus>, i: int, v: PlayerStatus)
    requires
        0 <= i < ss.len(),
    ensures
        count_alive(ss.update(i, v)) == count_alive(ss) - alive_weight(ss[i]) + alive_weight(v),
    decreases ss.len(),
{
    let t = ss.update(i, v);
    if i == ss.len() - 1 {
        assert(t.drop_last() =~= ss.drop_last());
    } else {
        assert(t.drop_last() =~= ss.drop_last().update(i, v));
        assert(t.last() == ss.last());
        lemma_count_alive_update(ss.drop_last(), i, v);
    }
}

pub proof fn lemma_count_alive_all_dead(ss: Seq<PlayerStatus>)
    requires
        forall|p: int| 0 <= p < ss.len() ==> !(#[trigger] ss[p]).spec_is_alive(),
    ensures
        count_alive(ss) == 0,
    decreases ss.len(),
{
    if ss.len() > 0 {
        lemma_count_alive_all_dead(ss.drop_last());
    }
}

/// How many cells of a row are free.
pub open spec fn row_free(row: Seq<Option<usize>>) -> nat
    decreases row.len(),
{
    if row.len() == 0 {
        0nat
    } else {
        row_free(row.drop_last()) + if row.last() is None {
            1nat
        } else {
            0nat
        }
    }
}

/// How many cells of the whole grid are free. A successful move always
/// takes one away, and nothing ever gives one back: the board only
/// fills.
pub open spec fn grid_free(cells: Seq<Seq<Option<usize>>>) -> nat
    decreases cells.len(),
{
    if cells.len() == 0 {
        0nat
    } else {
        grid_free(cells.drop_last()) + row_free(cells.last())
    }
}

proof fn lemma_row_free_update(row: Seq<Option<usize>>, x: int, v: usize)
    requires
        0 <= x < row.len(),
        row[x] is None,
    ensures
        row_free(row.update(x, Some(v))) == row_free(row) - 1,
    decreases row.len(),
{
    let t = row.update(x, Some(v));
    if x == row.len() - 1 {
        assert(t.drop_last() =~= row.drop_last());
    } else {
        assert(t.drop_last() =~= row.drop_last().update(x, Some(v)));
        assert(t.last() == row.last());
        lemma_row_free_update(row.drop_last(), x, v);
    }
}

proof fn lemma_grid_free_update(cells: Seq<Seq<Option<usize>>>, y: int, newrow: Seq<Option<usize>>)
    requires
        0 <= y < cells.len(),
    ensures
        grid_free(cells.update(y, newrow)) == grid_free(cells) - row_free(cells[y]) + row_free(
            newrow,
        ),
    decreases cells.len(),
{
    let t = cells.update(y, newrow);
    if y == cells.len() - 1 {
        assert(t.drop_last() =~= cells.drop_last());
    } else {
        assert(t.drop_last() =~= cells.drop_last().update(y, newrow));
        assert(t.last() == cells.last());
        lemma_grid_free_update(cells.drop_last(), y, newrow);
    }
}

proof fn lemma_count_alive_le_len(ss: Seq<PlayerStatus>)
    ensures
        count_alive(ss) <= ss.len(),
    decreases ss.len(),
{
    if ss.len() > 0 {
        lemma_count_alive_le_len(ss.drop_last());
    }
}

proof fn lemma_row_free_le(row: Seq<Option<usize>>)
    ensures
        row_free(row) <= row.len(),
    decreases row.len(),
{
    if row.len() > 0 {
        lemma_row_free_le(row.drop_last());
    }
}

proof fn lemma_grid_free_le(cells: Seq<Seq<Option<usize>>>, w: int)
    requires
        w >= 0,
        forall|y: int| 0 <= y < cells.len() ==> (#[trigger] cells[y]).len() == w,
    ensures
        grid_free(cells) <= cells.len() * w,
    decreases cells.len(),
{
    if cells.len() > 0 {
        let t = cells.drop_last();
        assert(forall|y: int| 0 <= y < t.len() ==> (#[trigger] t[y]).len() == w);
        lemma_grid_free_le(t, w);
        lemma_row_free_le(cells.last());
        assert(cells.last().len() == w);
        assert((cells.len() - 1) * w + w == cells.len() * w) by (nonlinear_arith);
    }
}

/// A successful move takes exactly one free cell away.
proof fn lemma_move_fills_one_cell(g: GameView, p: int, d: Direction)
    requires
        g.wf(),
        0 <= p < g.n_players(),
        g.spec_move_succeeds(p, d),
    ensures
        grid_free(g.spec_apply_move(p, d).cells) == grid_free(g.cells) - 1,
{
    let t = g.spec_move_target(p, d);
    let row = g.cells[t.1 as int];
    lemma_row_free_update(row, t.0 as int, p as usize);
    lemma_grid_free_update(g.cells, t.1 as int, row.update(t.0 as int, Some(p as usize)));
}

/// The first seat in `[lo, hi)` holding a living player.
pub open spec fn spec_first_alive(ss: Seq<PlayerStatus>, lo: int, hi: int) -> Option<int>
    decreases hi - lo,
{
    if lo < 0 || lo >= hi || hi > ss.len() {
        None
    } else if ss[lo].spec_is_alive() {
        Some(lo)
    } else {
        spec_first_alive(ss, lo + 1, hi)
    }
}

/// The seat asked next when the scan starts at `c`: the first living
/// seat at or after `c`, or, failing that, the first living seat of the
/// next round.
pub open spec fn spec_next_seat(ss: Seq<PlayerStatus>, c: int) -> Option<int> {
    match spec_first_alive(ss, c, ss.len() as int) {
        Some(p) => Some(p),
        None => spec_first_alive(ss, 0, ss.len() as int),
    }
}

proof fn lemma_first_alive_scan(ss: Seq<PlayerStatus>, lo: int, hi: int, i: int)
    requires
        0 <= lo <= i <= hi <= ss.len(),
        forall|j: int| lo <= j < i ==> !(#[trigger] ss[j]).spec_is_alive(),
    ensures
        spec_first_alive(ss, lo, hi) == spec_first_alive(ss, i, hi),
    decreases i - lo,
{
    if lo < i {
        lemma_first_alive_scan(ss, lo + 1, hi, i);
    }
}

proof fn lemma_first_alive_found(ss: Seq<PlayerStatus>, lo: int, hi: int, i: int)
    requires
        0 <= lo <= i < hi <= ss.len(),
        forall|j: int| lo <= j < i ==> !(#[trigger] ss[j]).spec_is_alive(),
        ss[i].spec_is_alive(),
    ensures
        spec_first_alive(ss, lo, hi) == Some(i),
{
    lemma_first_alive_scan(ss, lo, hi, i);
}

proof fn lemma_first_alive_none(ss: Seq<PlayerStatus>, lo: int, hi: int)
    requires
        0 <= lo <= hi <= ss.len(),
        forall|j: int| lo <= j < hi ==> !(#[trigger] ss[j]).spec_is_alive(),
    ensures
        spec_first_alive(ss, lo, hi) == None::<int>,
{
    lemma_first_alive_scan(ss, lo, hi, hi);
}

/// The seat the cursor moves to once seat `p` has had its turn.
pub open spec fn spec_next_cursor(p: usize, n: int) -> int {
    if p + 1 == n {
        0
    } else {
        p + 1
    }
}

/// One `Kill` message per still-living seat, in seat order.
pub open spec fn spec_kill_list(ss: Seq<PlayerStatus>) -> Seq<Message>
    decreases ss.len(),
{
    if ss.len() == 0 {
        Seq::empty()
    } else {
        spec_kill_list(ss.drop_last()) + if ss.last().spec_is_alive() {
            seq![Message::Kill((ss.len() - 1) as usize)]
        } else {
            Seq::empty()
        }
    }
}

/// The orchestrator's state for one running game: the board, its own
/// authoritative per-player status array, and the round-robin cursor.
pub struct GameRunner {
    pub game: TorusSnakeGame,
    pub player_statuses: Vec<PlayerStatus>,
    /// The seat at which the search for the next turn starts.
    pub cursor: usize,
    /// Whether the next asked turn is the game's very first, which gets
    /// the startup grace period of ten time limits.
    pub first_turn: bool,
}

impl GameRunner {
    pub open spec fn n(self) -> int {
        self.player_statuses@.len() as int
    }

    pub open spec fn wf(self) -> bool {
        &&& self.game@.wf()
        &&& self.player_statuses@.len() == self.game@.n_players()
        &&& self.player_statuses@.len() >= 1
        &&& self.cursor < self.player_statuses@.len()
    }

    /// Free cells plus living players: every processed turn strictly
    /// shrinks it, which bounds a game's length by board area plus
    /// player count.
    pub open spec fn measure(self) -> nat {
        grid_free(self.game@.cells) + count_alive(self.player_statuses@)
    }

    /// Start running a freshly created game: everyone alive, seat 0 to
    /// move first, the startup grace period still owed.
    pub fn new(game: TorusSnakeGame) -> (r: GameRunner)
        requires
            game@.wf(),
            game@.n_players() >= 1,
        ensures
            r.wf(),
            r.game == game,
            r.player_statuses@.len() == game@.n_players(),
            forall|p: int| 0 <= p < r.player_statuses@.len() ==> r.player_statuses@[p]
                == PlayerStatus::Alive,
            r.cursor == 0,
            r.first_turn == true,
    {
        let n = game.head_positions.len();
        let mut statuses: Vec<PlayerStatus> = Vec::new();
        let mut i: usize = 0;
        while i < n
            invariant
                0 <= i <= n,
                statuses@.len() == i,
                forall|p: int| 0 <= p < i ==> statuses@[p] == PlayerStatus::Alive,
            decreases n - i,
        {
            statuses.push(PlayerStatus::Alive);
            i = i + 1;
        }
        GameRunner { game, player_statuses: statuses, cursor: 0, first_turn: true }
    }

    /// How many players are still alive.
    pub fn alive_count(&self) -> (r: usize)
        ensures
            r == count_alive(self.player_statuses@),
    {
        let n = self.player_statuses.len();
        let mut cnt: usize = 0;
        let mut i: usize = 0;
        while i < n
            invariant
                0 <= i <= n,
                cnt <= i,
                n == self.player_statuses@.len(),
                cnt == count_alive(self.player_statuses@.take(i as int)),
            decreases n - i,
        {
            proof {
                assert(self.player_statuses@.take(i + 1).drop_last() =~= self.player_statuses@.take(
                    i as int,
                ));
            }
            if self.player_statuses[i].is_alive() {
                cnt = cnt + 1;
            }
            i = i + 1;
        }
        proof {
            assert(self.player_statuses@.take(n as int) =~= self.player_statuses@);
        }
        cnt
    }

    /// Whom to ask for the next move: the next living seat in
    /// round-robin order, or nothing once fewer than two players are
    /// alive — the check that ends the game, made before every turn.
    pub fn next_to_ask(&self) -> (r: Option<usize>)
        requires
            self.wf(),
        ensures
            match r {
                Some(p) => count_alive(self.player_statuses@) >= 2 && p < self.n()
                    && self.player_statuses@[p as int].spec_is_alive() && spec_next_seat(
                    self.player_statuses@,
                    self.cursor as int,
                ) == Some(p as int),
                None => count_alive(self.player_statuses@) < 2,
            },
    {
        if self.alive_count() < 2 {
            return None;
        }
        let ghost ss = self.player_statuses@;
        let n = self.player_statuses.len();
        let mut i: usize = self.cursor;
        while i < n
            invariant
                self.cursor <= i <= n,
                n == ss.len(),
                ss == self.player_statuses@,
                count_alive(ss) >= 2,
                forall|j: int| self.cursor <= j < i ==> !(#[trigger] ss[j]).spec_is_alive(),
            decreases n - i,
        {
            if self.player_statuses[i].is_alive() {
                proof {
                    lemma_first_alive_found(ss, self.cursor as int, n as int, i as int);
                }
                return Some(i);
            }
            i = i + 1;
        }
        proof {
            lemma_first_alive_none(ss, self.cursor as int, n as int);
        }
        let mut k: usize = 0;
        while k < n
            invariant
                0 <= k <= n,
                n == ss.len(),
                ss == self.player_statuses@,
                count_alive(ss) >= 2,
                self.cursor <= n,
                forall|j: int| self.cursor <= j < n ==> !(#[trigger] ss[j]).spec_is_alive(),
                forall|j: int| 0 <= j < k ==> !(#[trigger] ss[j]).spec_is_alive(),
            decreases n - k,
        {
            if self.player_statuses[k].is_alive() {
                proof {
                    lemma_first_alive_none(ss, self.cursor as int, n as int);
                    lemma_first_alive_found(ss, 0, n as int, k as int);
                }
                return Some(k);
            }
            k = k + 1;
        }
        proof {
            lemma_count_alive_all_dead(ss);
            assert(false);
        }
        None
    }

    /// The time the player asked next is allowed to take: ten limits on
    /// the game's very first turn, one limit afterwards.
    pub fn current_time_limit(&self, time_limit: u64) -> (r: u64)
        requires
            time_limit <= u64::MAX / 10,
        ensures
            r == if self.first_turn {
                10 * time_limit
            } else {
                time_limit as int
            },
    {
        if self.first_turn {
            10 * time_limit
        } else {
            time_limit
        }
    }

    /// The asked player produced no line in time: it dies of TimeOut,
    /// nothing is communicated, the board is untouched.
    pub fn apply_timeout(&mut self, player: usize) -> (msgs: Vec<Message>)
        requires
            old(self).wf(),
            player < old(self).n(),
            old(self).player_statuses@[player as int].spec_is_alive(),
        ensures
            final(self).wf(),
            final(self).game == old(self).game,
            final(self).player_statuses@ == old(self).player_statuses@.update(
                player as int,
                PlayerStatus::Dead(LossReason::TimeOut),
            ),
            final(self).cursor == spec_next_cursor(player, old(self).n()),
            final(self).first_turn == false,
            final(self).measure() < old(self).measure(),
            msgs@ == seq![Message::Kill(player)],
    {
        let msg = kill_player(player, LossReason::TimeOut, &mut self.player_statuses);
        self.advance_cursor(player);
        self.first_turn = false;
        proof {
            lemma_count_alive_update(
                old(self).player_statuses@,
                player as int,
                PlayerStatus::Dead(LossReason::TimeOut),
            );
        }
        let mut msgs: Vec<Message> = Vec::new();
        msgs.push(msg);
        proof {
            assert(msgs@ =~= seq![Message::Kill(player)]);
        }
        msgs
    }

    /// The asked player answered `line`. An unparseable line kills it as
    /// InvalidInput. A direction is applied to the board: a free target
    /// cell commits the move, an occupied one kills the player as
    /// LosingMove. Either way the attempted direction is communicated to
    /// the survivors, after the kill, so replays stay exact.
    pub fn apply_line(&mut self, player: usize, line: &str) -> (msgs: Vec<Message>)
        requires
            old(self).wf(),
            player < old(self).n(),
            old(self).player_statuses@[player as int].spec_is_alive(),
        ensures
            final(self).wf(),
            final(self).cursor == spec_next_cursor(player, old(self).n()),
            final(self).first_turn == false,
            final(self).measure() < old(self).measure(),
            match spec_parse_direction(line@) {
                None => {
                    &&& final(self).game == old(self).game
                    &&& final(self).player_statuses@ == old(self).player_statuses@.update(
                        player as int,
                        PlayerStatus::Dead(LossReason::InvalidInput),
                    )
                    &&& msgs@ == seq![Message::Kill(player)]
                },
                Some(d) => {
                    &&& final(self).game@ == old(self).game@.spec_apply_move(player as int, d)
                    &&& if old(self).game@.spec_move_succeeds(player as int, d) {
                        &&& final(self).player_statuses@ == old(self).player_statuses@
                        &&& msgs@ == seq![
                            Message::CommunicateMove { direction: d, player },
                        ]
                    } else {
                        &&& final(self).player_statuses@ == old(self).player_statuses@.update(
                            player as int,
                            PlayerStatus::Dead(LossReason::LosingMove),
                        )
                        &&& msgs@ == seq![
                            Message::Kill(player),
                            Message::CommunicateMove { direction: d, player },
                        ]
                    }
                },
            },
    {
        let mut msgs: Vec<Message> = Vec::new();
        match Direction::parse(line) {
            Err(_) => {
                let msg = kill_player(
                    player,
                    LossReason::InvalidInput,
                    &mut self.player_statuses,
                );
                msgs.push(msg);
                proof {
                    lemma_count_alive_update(
                        old(self).player_statuses@,
                        player as int,
                        PlayerStatus::Dead(LossReason::InvalidInput),
                    );
                    assert(msgs@ =~= seq![Message::Kill(player)]);
                }
            },
            Ok(direction) => {
                if !self.game.move_player(player, direction) {
                    let msg = kill_player(
                        player,
                        LossReason::LosingMove,
                        &mut self.player_statuses,
                    );
                    msgs.push(msg);
                    proof {
                        lemma_count_alive_update(
                            old(self).player_statuses@,
                            player as int,
                            PlayerStatus::Dead(LossReason::LosingMove),
                        );
                    }
                } else {
                    proof {
                        lemma_move_fills_one_cell(old(self).game@, player as int, direction);
                    }
                }
                msgs.push(Message::CommunicateMove { direction, player });
                proof {
                    if old(self).game@.spec_move_succeeds(player as int, direction) {
                        assert(msgs@ =~= seq![
                            Message::CommunicateMove { direction, player },
                        ]);
                    } else {
                        assert(msgs@ =~= seq![
                            Message::Kill(player),
                            Message::CommunicateMove { direction, player },
                        ]);
                    }
                }
            },
        }
        self.advance_cursor(player);
        self.first_turn = false;
        msgs
    }

    /// The winner of a finished game: the first living player, or none
    /// when every player is dead — a valid outcome with no win recorded.
    pub fn winner(&self) -> (r: Option<usize>)
        ensures
            match r {
                Some(p) => p < self.player_statuses@.len()
                    && self.player_statuses@[p as int].spec_is_alive() && forall|q: int|
                    0 <= q < p ==> !(#[trigger] self.player_statuses@[q]).spec_is_alive(),
                None => forall|q: int|
                    0 <= q < self.player_statuses@.len() ==> !(
                    #[trigger] self.player_statuses@[q]).spec_is_alive(),
            },
    {
        let n = self.player_statuses.len();
        let mut i: usize = 0;
        while i < n
            invariant
                0 <= i <= n,
                n == self.player_statuses@.len(),
                forall|q: int|
                    0 <= q < i ==> !(#[trigger] self.player_statuses@[q]).spec_is_alive(),
            decreases n - i,
        {
            if self.player_statuses[i].is_alive() {
                return Some(i);
            }
            i = i + 1;
        }
        None
    }

    /// The final outcome of every player, in seat order.
    pub fn results(&self) -> (r: Vec<PlayerResult>)
        ensures
            r@.len() == self.player_statuses@.len(),
            forall|p: int|
                0 <= p < r@.len() ==> r@[p] == spec_result_of(#[trigger] self.player_statuses@[p]),
    {
        let n = self.player_statuses.len();
        let mut r: Vec<PlayerResult> = Vec::new();
        let mut i: usize = 0;
        while i < n
            invariant
                0 <= i <= n,
                n == self.player_statuses@.len(),
                r@.len() == i,
                forall|p: int|
                    0 <= p < i ==> r@[p] == spec_result_of(#[trigger] self.player_statuses@[p]),
            decreases n - i,
        {
            r.push(PlayerResult::from(self.player_statuses[i]));
            i = i + 1;
        }
        r
    }

    /// The cleanup messages of a finished game: one `Kill` per player
    /// still alive, in seat order. The survivor is told to stop and its
    /// process is reaped, but it is not reclassified as dead.
    pub fn closing_messages(&self) -> (msgs: Vec<Message>)
        ensures
            msgs@ == spec_kill_list(self.player_statuses@),
    {
        let n = self.player_statuses.len();
        let mut msgs: Vec<Message> = Vec::new();
        let mut i: usize = 0;
        while i < n
            invariant
                0 <= i <= n,
                n == self.player_statuses@.len(),
                msgs@ == spec_kill_list(self.player_statuses@.take(i as int)),
            decreases n - i,
        {
            proof {
                assert(self.player_statuses@.take(i + 1).drop_last() =~= self.player_statuses@.take(
                    i as int,
                ));
            }
            if self.player_statuses[i].is_alive() {
                msgs.push(Message::Kill(i));
            }
            i = i + 1;
        }
        proof {
            assert(self.player_statuses@.take(n as int) =~= self.player_statuses@);
        }
        msgs
    }

    /// Play a whole game in which every player always answers with the
    /// same fixed direction. The loop provably terminates: every
    /// processed turn either fills a free cell or kills a player, so
    /// `measure` — free cells plus living players, at most board area
    /// plus player count — strictly decreases. It ends, as every game
    /// does, with at most one player alive, and returns the winner.
    pub fn run_fixed_policies(&mut self, policies: &Vec<Direction>) -> (winner: Option<usize>)
        requires
            old(self).wf(),
            policies@.len() == old(self).player_statuses@.len(),
        ensures
            final(self).wf(),
            count_alive(final(self).player_statuses@) <= 1,
            match winner {
                Some(p) => p < final(self).player_statuses@.len()
                    && final(self).player_statuses@[p as int].spec_is_alive() && forall|q: int|
                    0 <= q < p ==> !(#[trigger] final(self).player_statuses@[q]).spec_is_alive(),
                None => forall|q: int|
                    0 <= q < final(self).player_statuses@.len()
                        ==> !(#[trigger] final(self).player_statuses@[q]).spec_is_alive(),
            },
    {
        loop
            invariant
                self.wf(),
                policies@.len() == self.player_statuses@.len(),
            ensures
                self.wf(),
                count_alive(self.player_statuses@) < 2,
            decreases self.measure(),
        {
            let p = match self.next_to_ask() {
                Some(p) => p,
                None => {
                    break ;
                },
            };
            let line = policies[p].letter();
            let _msgs = self.apply_line(p, line);
        }
        self.winner()
    }

    /// Move the cursor to the seat after `player`, wrapping to seat 0.
    fn advance_cursor(&mut self, player: usize)
        requires
            player < old(self).n(),
        ensures
            final(self).cursor == spec_next_cursor(player, old(self).n()),
            final(self).game == old(self).game,
            final(self).player_statuses == old(self).player_statuses,
            final(self).first_turn == old(self).first_turn,
    {
        let n = self.player_statuses.len();
        self.cursor = if player + 1 == n {
            0
        } else {
            player + 1
        };
    }
}

/// The measure that every processed turn strictly shrinks never exceeds
/// board area plus player count, so a game lasts at most that many
/// turns, whatever the players answer.
pub proof fn lemma_measure_bounded(r: GameRunner)
    requires
        r.wf(),
    ensures
        r.measure() <= r.game@.width * r.game@.height + r.player_statuses@.len(),
{
    lemma_grid_free_le(r.game@.cells, r.game@.width as int);
    lemma_count_alive_le_len(r.player_statuses@);
    assert(r.game@.cells.len() * r.game@.width == r.game@.height * r.game@.width);
    assert(r.game@.height * r.game@.width == r.game@.width * r.game@.height) by (nonlinear_arith);
}

proof fn lemma_first_alive_is_alive(ss: Seq<PlayerStatus>, lo: int, hi: int)
    ensures
        match spec_first_alive(ss, lo, hi) {
            Some(i) => 0 <= i < ss.len() && ss[i].spec_is_alive(),
            None => true,
        },
    decreases hi - lo,
{
    if 0 <= lo < hi && hi <= ss.len() && !ss[lo].spec_is_alive() {
        lemma_first_alive_is_alive(ss, lo + 1, hi);
    }
}

/// Once a player is dead it stays out of the game: the round-robin scan
/// never picks it again, whatever seat the scan starts from, and another
/// player's turn leaves both its head and every cell of its trail
/// exactly as they were — the board is never mutated on a dead player's
/// behalf.
pub proof fn lemma_dead_player_left_alone(
    g: GameView,
    ss: Seq<PlayerStatus>,
    c: int,
    p: int,
    q: int,
    d: Direction,
)
    requires
        g.wf(),
        0 <= p < g.n_players(),
        0 <= q < g.n_players(),
        q != p,
        0 <= p < ss.len(),
        !ss[p].spec_is_alive(),
    ensures
        spec_next_seat(ss, c) != Some(p),
        g.spec_apply_move(q, d).heads[p] == g.heads[p],
        forall|pos: (usize, usize)|
            g.in_bounds(pos) && g.cell(pos) == Some(p as usize) ==> g.spec_apply_move(
                q,
                d,
            ).cell(pos) == Some(p as usize),
{
    lemma_first_alive_is_alive(ss, c, ss.len() as int);
    lemma_first_alive_is_alive(ss, 0, ss.len() as int);
    let g1 = g.spec_apply_move(q, d);
    if g.spec_move_succeeds(q, d) {
        let t = g.spec_move_target(q, d);
        assert forall|pos: (usize, usize)|
            g.in_bounds(pos) && g.cell(pos) == Some(p as usize) implies g1.cell(pos) == Some(
            p as usize,
        ) by {
            assert(g.cell(t) is None);
            assert(pos != t);
        }
    }
}

/// All the positions of a sequence hold pairwise different values.
pub open spec fn distinct_positions(s: Seq<(usize, usize)>) -> bool {
    forall|i: int, j: int| 0 <= i < j < s.len() ==> s[i] != s[j]
}

/// Draw `n_players` distinct starting positions on a `width` by `height`
/// board: every free cell is enumerated once and positions are drawn
/// from the remaining ones, so the draw always terminates.
pub fn random_starting_positions(width: usize, height: usize, n_players: usize) -> (r: Vec<
    (usize, usize),
>)
    requires
        width >= 1,
        height >= 1,
        n_players <= width * height,
        width * height <= usize::MAX,
    ensures
        r@.len() == n_players,
        forall|i: int| 0 <= i < n_players ==> (#[trigger] r@[i]).0 < width && r@[i].1 < height,
        distinct_positions(r@),
{
    let mut free: Vec<(usize, usize)> = Vec::new();
    let mut y: usize = 0;
    while y < height
        invariant
            0 <= y <= height,
            free@.len() == y * width,
            y * width <= width * height,
            forall|k: int| 0 <= k < free@.len() ==> (#[trigger] free@[k]).0 < width,
            forall|k: int| 0 <= k < free@.len() ==> (#[trigger] free@[k]).1 < y,
            distinct_positions(free@),
        decreases height - y,
    {
        let mut x: usize = 0;
        proof {
            assert((y + 1) * width == y * width + width) by (nonlinear_arith);
            assert((y + 1) * width <= height * width ==> y * width + width <= width * height)
                by (nonlinear_arith);
            assert((y + 1) * width <= height * width) by (nonlinear_arith)
                requires
                    y + 1 <= height,
                    width >= 0,
            ;
            assert(height * width == width * height) by (nonlinear_arith);
        }
        while x < width
            invariant
                0 <= x <= width,
                y < height,
                free@.len() == y * width + x,
                y * width + width <= width * height,
                forall|k: int| 0 <= k < free@.len() ==> (#[trigger] free@[k]).0 < width,
                forall|k: int|
                    0 <= k < free@.len() ==> (#[trigger] free@[k]).1 < y || (free@[k].1 == y
                        && free@[k].0 < x),
                distinct_positions(free@),
            decreases width - x,
        {
            free.push((x, y));
            x = x + 1;
        }
        y = y + 1;
    }
    proof {
        assert(height * width == width * height) by (nonlinear_arith);
    }
    let mut out: Vec<(usize, usize)> = Vec::new();
    while out.len() < n_players
        invariant
            out@.len() <= n_players,
            n_players <= width * height,
            free@.len() + out@.len() == width * height,
            forall|k: int| 0 <= k < free@.len() ==> (#[trigger] free@[k]).0 < width,
            forall|k: int| 0 <= k < free@.len() ==> (#[trigger] free@[k]).1 < height,
            forall|k: int| 0 <= k < out@.len() ==> (#[trigger] out@[k]).0 < width,
            forall|k: int| 0 <= k < out@.len() ==> (#[trigger] out@[k]).1 < height,
            distinct_positions(free@),
            distinct_positions(out@),
            forall|i: int, j: int|
                0 <= i < out@.len() && 0 <= j < free@.len() ==> out@[i] != free@[j],
        decreases n_players - out@.len(),
    {
        let idx = crate::rng::rand_below(free.len());
        let ghost old_free = free@;
        let pos = free.swap_remove(idx);
        proof {
            let mid = old_free.update(idx as int, old_free.last());
            assert(free@ =~= mid.drop_last());
            assert forall|i: int, j: int| 0 <= i < j < free@.len() implies free@[i] != free@[j] by {
                assert(mid[i] == if i == idx {
                    old_free.last()
                } else {
                    old_free[i]
                });
                assert(mid[j] == if j == idx {
                    old_free.last()
                } else {
                    old_free[j]
                });
            }
            assert forall|j: int| 0 <= j < free@.len() implies pos != free@[j] by {
                assert(free@[j] == if j == idx {
                    old_free.last()
                } else {
                    old_free[j]
                });
            }
        }
        out.push(pos);
    }
    out
}

} // verus!
