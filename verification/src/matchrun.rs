//! Match-level bookkeeping: per-player counters over many games, the set
//! of players tied for most wins, randomized seating with exact
//! attribution of seat results back to script identity, and the summary
//! record.
//!
//! The games themselves run outside the library — they spawn processes —
//! but every decision between games is taken here: before each game a
//! seating permutation is drawn, after each game the seat outcomes are
//! attributed and counted, and after the last game the tied set decides
//! whether a tiebreaker is owed.

use vstd::prelude::*;

use crate::digits::{spec_usize_digits, usize_to_string};
use crate::running::{LossReason, PlayerResult};

verus! {

/// Per-player counters of one match, updated once per completed game.
pub struct MatchStats {
    pub n_players: usize,
    pub timeouts: Vec<i32>,
    pub invalid_inputs: Vec<i32>,
    pub losing_moves: Vec<i32>,
    pub wins: Vec<i32>,
}

impl MatchStats {
    /// One counter of each kind per player, none negative.
    pub open spec fn wf(self) -> bool {
        &&& self.timeouts@.len() == self.n_players
        &&& self.invalid_inputs@.len() == self.n_players
        &&& self.losing_moves@.len() == self.n_players
        &&& self.wins@.len() == self.n_players
        &&& forall|p: int| 0 <= p < self.n_players ==> #[trigger] self.timeouts@[p] >= 0
        &&& forall|p: int| 0 <= p < self.n_players ==> #[trigger] self.invalid_inputs@[p] >= 0
        &&& forall|p: int| 0 <= p < self.n_players ==> #[trigger] self.losing_moves@[p] >= 0
        &&& forall|p: int| 0 <= p < self.n_players ==> #[trigger] self.wins@[p] >= 0
    }

    /// Fresh counters, all zero.
    pub fn new(n_players: usize) -> (r: MatchStats)
        ensures
            r.wf(),
            r.n_players == n_players,
            forall|p: int| 0 <= p < n_players ==> #[trigger] r.timeouts@[p] == 0,
            forall|p: int| 0 <= p < n_players ==> #[trigger] r.invalid_inputs@[p] == 0,
            forall|p: int| 0 <= p < n_players ==> #[trigger] r.losing_moves@[p] == 0,
            forall|p: int| 0 <= p < n_players ==> #[trigger] r.wins@[p] == 0,
    {
        MatchStats {
            n_players,
            timeouts: zero_counters(n_players),
            invalid_inputs: zero_counters(n_players),
            losing_moves: zero_counters(n_players),
            wins: zero_counters(n_players),
        }
    }

    /// Count one finished game: per player, exactly the counter its
    /// result names goes up by one.
    pub fn update(&mut self, player_results: &Vec<PlayerResult>)
        requires
            old(self).wf(),
            player_results@.len() == old(self).n_players,
            forall|p: int| 0 <= p < old(self).n_players ==> #[trigger] old(self).timeouts@[p]
                < i32::MAX,
            forall|p: int| 0 <= p < old(self).n_players ==> #[trigger] old(self).invalid_inputs@[p]
                < i32::MAX,
            forall|p: int| 0 <= p < old(self).n_players ==> #[trigger] old(self).losing_moves@[p]
                < i32::MAX,
            forall|p: int| 0 <= p < old(self).n_players ==> #[trigger] old(self).wins@[p]
                < i32::MAX,
        ensures
            final(self).wf(),
            final(self).n_players == old(self).n_players,
            forall|p: int|
                0 <= p < old(self).n_players ==> #[trigger] final(self).wins@[p] == old(
                    self,
                ).wins@[p] + if player_results@[p] is Winner {
                    1int
                } else {
                    0int
                },
            forall|p: int|
                0 <= p < old(self).n_players ==> #[trigger] final(self).timeouts@[p] == old(
                    self,
                ).timeouts@[p] + if player_results@[p] == PlayerResult::Loser(
                    LossReason::TimeOut,
                ) {
                    1int
                } else {
                    0int
                },
            forall|p: int|
                0 <= p < old(self).n_players ==> #[trigger] final(self).invalid_inputs@[p] == old(
                    self,
                ).invalid_inputs@[p] + if player_results@[p] == PlayerResult::Loser(
                    LossReason::InvalidInput,
                ) {
                    1int
                } else {
                    0int
                },
            forall|p: int|
                0 <= p < old(self).n_players ==> #[trigger] final(self).losing_moves@[p] == old(
                    self,
                ).losing_moves@[p] + if player_results@[p] == PlayerResult::Loser(
                    LossReason::LosingMove,
                ) {
                    1int
                } else {
                    0int
                },
    {
        let n = self.n_players;
        let mut p: usize = 0;
        while p < n
            invariant
                0 <= p <= n,
                n == self.n_players,
                player_results@.len() == n,
                self.timeouts@.len() == n,
                self.invalid_inputs@.len() == n,
                self.losing_moves@.len() == n,
                self.wins@.len() == n,
                forall|q: int| p <= q < n ==> #[trigger] self.timeouts@[q] == old(self).timeouts@[q],
                forall|q: int|
                    p <= q < n ==> #[trigger] self.invalid_inputs@[q] == old(
                        self,
                    ).invalid_inputs@[q],
                forall|q: int|
                    p <= q < n ==> #[trigger] self.losing_moves@[q] == old(self).losing_moves@[q],
                forall|q: int| p <= q < n ==> #[trigger] self.wins@[q] == old(self).wins@[q],
                forall|q: int| p <= q < n ==> #[trigger] old(self).timeouts@[q] < i32::MAX,
                forall|q: int| p <= q < n ==> #[trigger] old(self).invalid_inputs@[q] < i32::MAX,
                forall|q: int| p <= q < n ==> #[trigger] old(self).losing_moves@[q] < i32::MAX,
                forall|q: int| p <= q < n ==> #[trigger] old(self).wins@[q] < i32::MAX,
                forall|q: int| 0 <= q < n ==> #[trigger] self.timeouts@[q] >= 0,
                forall|q: int| 0 <= q < n ==> #[trigger] self.invalid_inputs@[q] >= 0,
                forall|q: int| 0 <= q < n ==> #[trigger] self.losing_moves@[q] >= 0,
                forall|q: int| 0 <= q < n ==> #[trigger] self.wins@[q] >= 0,
                forall|q: int|
                    0 <= q < p ==> #[trigger] self.wins@[q] == old(self).wins@[q] + if player_results@[q] is Winner {
                        1int
                    } else {
                        0int
                    },
                forall|q: int|
                    0 <= q < p ==> #[trigger] self.timeouts@[q] == old(self).timeouts@[q]
                        + if player_results@[q] == PlayerResult::Loser(LossReason::TimeOut) {
                        1int
                    } else {
                        0int
                    },
                forall|q: int|
                    0 <= q < p ==> #[trigger] self.invalid_inputs@[q] == old(
                        self,
                    ).invalid_inputs@[q] + if player_results@[q] == PlayerResult::Loser(
                        LossReason::InvalidInput,
                    ) {
                        1int
                    } else {
                        0int
                    },
                forall|q: int|
                    0 <= q < p ==> #[trigger] self.losing_moves@[q] == old(self).losing_moves@[q]
                        + if player_results@[q] == PlayerResult::Loser(LossReason::LosingMove) {
                        1int
                    } else {
                        0int
                    },
            decreases n - p,
        {
            match player_results[p] {
                PlayerResult::Loser(LossReason::InvalidInput) => {
                    self.invalid_inputs[p] = self.invalid_inputs[p] + 1;
                },
                PlayerResult::Loser(LossReason::LosingMove) => {
                    self.losing_moves[p] = self.losing_moves[p] + 1;
                },
                PlayerResult::Loser(LossReason::TimeOut) => {
                    self.timeouts[p] = self.timeouts[p] + 1;
                },
                PlayerResult::Winner => {
                    self.wins[p] = self.wins[p] + 1;
                },
            }
            p = p + 1;
        }
    }

    /// The players tied for the most wins, ascending: exactly one means
    /// a decided match, two or more call for a tiebreaker.
    pub fn most_wins(&self) -> (r: Vec<usize>)
        requires
            self.wf(),
        ensures
            self.n_players == 0 ==> r@.len() == 0,
            self.n_players > 0 ==> r@ == spec_tied(self.wins@, spec_max_wins(self.wins@)),
            self.n_players > 0 ==> r@.len() >= 1,
    {
        let n = self.n_players;
        if n == 0 {
            return Vec::new();
        }
        let mut best: i32 = self.wins[0];
        let mut i: usize = 1;
        while i < n
            invariant
                1 <= i <= n,
                n == self.n_players,
                self.wins@.len() == n,
                best == spec_max_wins(self.wins@.take(i as int)),
            decreases n - i,
        {
            proof {
                assert(self.wins@.take(i + 1).drop_last() =~= self.wins@.take(i as int));
            }
            if self.wins[i] > best {
                best = self.wins[i];
            }
            i = i + 1;
        }
        proof {
            assert(self.wins@.take(n as int) =~= self.wins@);
        }
        let mut r: Vec<usize> = Vec::new();
        let mut p: usize = 0;
        while p < n
            invariant
                0 <= p <= n,
                n == self.n_players,
                self.wins@.len() == n,
                r@ == spec_tied(self.wins@.take(p as int), best),
            decreases n - p,
        {
            proof {
                assert(self.wins@.take(p + 1).drop_last() =~= self.wins@.take(p as int));
            }
            if self.wins[p] == best {
                r.push(p);
            }
            p = p + 1;
        }
        proof {
            assert(self.wins@.take(n as int) =~= self.wins@);
            lemma_max_is_tied(self.wins@);
        }
        r
    }
}

fn zero_counters(n: usize) -> (r: Vec<i32>)
    ensures
        r@.len() == n,
        forall|p: int| 0 <= p < n ==> #[trigger] r@[p] == 0,
{
    let mut r: Vec<i32> = Vec::new();
    let mut i: usize = 0;
    while i < n
        invariant
            0 <= i <= n,
            r@.len() == i,
            forall|p: int| 0 <= p < i ==> #[trigger] r@[p] == 0,
        decreases n - i,
    {
        r.push(0);
        i = i + 1;
    }
    r
}

/// The largest win count; 0 for no players.
pub open spec fn spec_max_wins(wins: Seq<i32>) -> i32
    decreases wins.len(),
{
    if wins.len() == 0 {
        0i32
    } else if wins.len() == 1 {
        wins[0]
    } else if wins.last() > spec_max_wins(wins.drop_last()) {
        wins.last()
    } else {
        spec_max_wins(wins.drop_last())
    }
}

/// The players whose win count equals `m`, ascending.
pub open spec fn spec_tied(wins: Seq<i32>, m: i32) -> Seq<usize>
    decreases wins.len(),
{
    if wins.len() == 0 {
        Seq::empty()
    } else {
        spec_tied(wins.drop_last(), m) + if wins.last() == m {
            seq![(wins.len() - 1) as usize]
        } else {
            Seq::empty()
        }
    }
}

/// Some player holds the maximum, so the tied set is never empty.
proof fn lemma_max_is_tied(wins: Seq<i32>)
    requires
        wins.len() >= 1,
        wins.len() <= usize::MAX,
    ensures
        spec_tied(wins, spec_max_wins(wins)).len() >= 1,
    decreases wins.len(),
{
    if wins.len() == 1 {
    } else if wins.last() == spec_max_wins(wins) {
    } else {
        lemma_max_is_tied(wins.drop_last());
    }
}

proof fn lemma_max_wins_ge_all(wins: Seq<i32>)
    ensures
        forall|q: int| 0 <= q < wins.len() ==> #[trigger] wins[q] <= spec_max_wins(wins),
    decreases wins.len(),
{
    if wins.len() > 1 {
        lemma_max_wins_ge_all(wins.drop_last());
        assert forall|q: int| 0 <= q < wins.len() implies #[trigger] wins[q] <= spec_max_wins(
            wins,
        ) by {
            if q < wins.len() - 1 {
                assert(wins.drop_last()[q] == wins[q]);
            }
        }
    }
}

proof fn lemma_max_wins_eq(wins: Seq<i32>, t: int, m: i32)
    requires
        0 <= t < wins.len(),
        wins[t] == m,
        forall|q: int| 0 <= q < wins.len() ==> #[trigger] wins[q] <= m,
    ensures
        spec_max_wins(wins) == m,
    decreases wins.len(),
{
    if wins.len() > 1 {
        let dl = wins.drop_last();
        assert(forall|q: int| 0 <= q < dl.len() ==> #[trigger] dl[q] == wins[q]);
        if t == wins.len() - 1 {
            lemma_max_index(dl);
            assert(dl[max_index(dl)] <= m);
        } else {
            lemma_max_wins_eq(dl, t, m);
        }
    }
}

/// Some index of a non-empty sequence attains the maximum.
spec fn max_index(wins: Seq<i32>) -> int
    decreases wins.len(),
{
    if wins.len() <= 1 {
        0
    } else if wins.last() > spec_max_wins(wins.drop_last()) {
        wins.len() - 1
    } else {
        max_index(wins.drop_last())
    }
}

proof fn lemma_max_index(wins: Seq<i32>)
    requires
        wins.len() >= 1,
    ensures
        0 <= max_index(wins) < wins.len(),
        wins[max_index(wins)] == spec_max_wins(wins),
    decreases wins.len(),
{
    if wins.len() > 1 {
        lemma_max_index(wins.drop_last());
        assert(wins.drop_last()[max_index(wins.drop_last())] == wins[max_index(
            wins.drop_last(),
        )]);
    }
}

proof fn lemma_tied_none(wins: Seq<i32>, m: i32)
    requires
        forall|q: int| 0 <= q < wins.len() ==> #[trigger] wins[q] != m,
    ensures
        spec_tied(wins, m) =~= Seq::<usize>::empty(),
    decreases wins.len(),
{
    if wins.len() > 0 {
        let dl = wins.drop_last();
        assert(forall|q: int| 0 <= q < dl.len() ==> #[trigger] dl[q] == wins[q]);
        lemma_tied_none(dl, m);
    }
}

proof fn lemma_tied_single(wins: Seq<i32>, m: i32, t: int)
    requires
        wins.len() <= usize::MAX,
        0 <= t < wins.len(),
        wins[t] == m,
        forall|q: int| 0 <= q < wins.len() && q != t ==> #[trigger] wins[q] != m,
    ensures
        spec_tied(wins, m) =~= seq![t as usize],
    decreases wins.len(),
{
    let dl = wins.drop_last();
    assert(forall|q: int| 0 <= q < dl.len() ==> #[trigger] dl[q] == wins[q]);
    if t == wins.len() - 1 {
        lemma_tied_none(dl, m);
    } else {
        lemma_tied_single(dl, m, t);
    }
}

/// The win counters after one more game whose seat outcomes are
/// `results`: exactly the winner's counter rises by one, as
/// `MatchStats::update` ensures of its `wins` field.
pub open spec fn spec_updated_wins(wins: Seq<i32>, results: Seq<PlayerResult>) -> Seq<i32> {
    Seq::new(
        wins.len(),
        |q: int|
            if results[q] is Winner {
                (wins[q] + 1) as i32
            } else {
                wins[q]
            },
    )
}

/// Tie resolution: when two or more players are tied for the most wins
/// and one of them wins a subsequent decisive tiebreaker game — a game
/// has at most one winner — then after that game's counters are added it
/// alone holds the most wins, so it is the match winner the tied set
/// yields.
pub proof fn lemma_tiebreak_decides(wins: Seq<i32>, results: Seq<PlayerResult>, t: int)
    requires
        1 <= wins.len() <= usize::MAX,
        results.len() == wins.len(),
        spec_tied(wins, spec_max_wins(wins)).len() >= 2,
        0 <= t < wins.len(),
        wins[t] == spec_max_wins(wins),
        results[t] is Winner,
        forall|q: int| 0 <= q < results.len() && q != t ==> !((#[trigger] results[q]) is Winner),
        forall|q: int| 0 <= q < wins.len() ==> #[trigger] wins[q] < i32::MAX,
    ensures
        spec_updated_wins(wins, results)[t] == wins[t] + 1,
        spec_tied(
            spec_updated_wins(wins, results),
            spec_max_wins(spec_updated_wins(wins, results)),
        ) == seq![t as usize],
{
    let m = spec_max_wins(wins);
    let new_wins = spec_updated_wins(wins, results);
    lemma_max_wins_ge_all(wins);
    assert(new_wins[t] == m + 1);
    assert(forall|q: int|
        0 <= q < new_wins.len() && q != t ==> #[trigger] new_wins[q] == wins[q]);
    assert(forall|q: int| 0 <= q < new_wins.len() ==> #[trigger] new_wins[q] <= m + 1);
    lemma_max_wins_eq(new_wins, t, (m + 1) as i32);
    lemma_tied_single(new_wins, (m + 1) as i32, t);
}

/// The win-count lines of the summary, one `player:wins` line per
/// player, each ending in a newline.
pub open spec fn spec_win_lines(wins: Seq<i32>) -> Seq<char>
    decreases wins.len(),
{
    if wins.len() == 0 {
        Seq::empty()
    } else {
        spec_win_lines(wins.drop_last()) + spec_usize_digits((wins.len() - 1) as nat) + seq![':']
            + spec_usize_digits(wins.last() as nat) + seq!['\n']
    }
}

/// The whole match summary record: `n_games:<n>` with the number of
/// games played, one `player:wins` line per player, then
/// `winner:<player>`, each line newline-terminated. A game can end with
/// no winner, so the games played can exceed the sum of the win
/// counters: the caller supplies the true count.
pub open spec fn spec_summary(n_games: usize, wins: Seq<i32>, winner: usize) -> Seq<char> {
    seq!['n', '_', 'g', 'a', 'm', 'e', 's', ':'] + spec_usize_digits(
        n_games as nat,
    ) + seq!['\n'] + spec_win_lines(wins) + seq!['w', 'i', 'n', 'n', 'e', 'r', ':']
        + spec_usize_digits(winner as nat) + seq!['\n']
}

/// Render the summary record for the declared winner: the games played,
/// every player's win count, and the winner, one line each.
pub fn summary_string(n_games: usize, wins: &Vec<i32>, winner: usize) -> (r: String)
    requires
        forall|p: int| 0 <= p < wins@.len() ==> #[trigger] wins@[p] >= 0,
    ensures
        r@ == spec_summary(n_games, wins@, winner),
{
    proof {
        reveal_strlit("n_games:");
        reveal_strlit("winner:");
        reveal_strlit(":");
        reveal_strlit("\n");
    }
    let n = wins.len();
    let mut r = String::from_str("n_games:").concat(usize_to_string(n_games).as_str()).concat(
        "\n",
    );
    let mut p: usize = 0;
    while p < n
        invariant
            0 <= p <= n,
            n == wins@.len(),
            forall|q: int| 0 <= q < n ==> #[trigger] wins@[q] >= 0,
            r@ == seq!['n', '_', 'g', 'a', 'm', 'e', 's', ':'] + spec_usize_digits(
                n_games as nat,
            ) + seq!['\n'] + spec_win_lines(wins@.take(p as int)),
        decreases n - p,
    {
        proof {
            reveal_strlit(":");
            reveal_strlit("\n");
            assert(wins@.take(p + 1).drop_last() =~= wins@.take(p as int));
            assert(wins@.take(p + 1).last() == wins@[p as int]);
        }
        r.append(usize_to_string(p).as_str());
        r.append(":");
        r.append(usize_to_string(wins[p] as usize).as_str());
        r.append("\n");
        proof {
            assert(r@ =~= seq!['n', '_', 'g', 'a', 'm', 'e', 's', ':'] + spec_usize_digits(
                n_games as nat,
            ) + seq!['\n'] + spec_win_lines(wins@.take(p + 1)));
        }
        p = p + 1;
    }
    proof {
        assert(wins@.take(n as int) =~= wins@);
    }
    let r = r.concat("winner:").concat(usize_to_string(winner).as_str()).concat("\n");
    proof {
        assert(r@ =~= spec_summary(n_games, wins@, winner));
    }
    r
}

/// A random permutation of the seats `0 .. n`: which script sits where
/// in the next game. `seating[s]` is the script identity playing as
/// in-game player `s`.
pub fn random_seating(n: usize) -> (r: Vec<usize>)
    ensures
        r@.len() == n,
        forall|s: int| 0 <= s < n ==> #[trigger] r@[s] < n,
        forall|i: int, j: int| 0 <= i < j < n ==> r@[i] != r@[j],
{
    broadcast use vstd::seq_lib::group_to_multiset_ensures;

    let mut seats: Vec<usize> = Vec::new();
    let mut i: usize = 0;
    while i < n
        invariant
            0 <= i <= n,
            seats@.len() == i,
            forall|s: int| 0 <= s < i ==> #[trigger] seats@[s] == s,
        decreases n - i,
    {
        seats.push(i);
        i = i + 1;
    }
    let ghost identity = seats@;
    crate::rng::shuffle_usizes(&mut seats);
    proof {
        assert(seats@.to_multiset() == identity.to_multiset());
        assert(seats@.len() == seats@.to_multiset().len());
        assert(identity.len() == identity.to_multiset().len());
        assert(seats@.len() == n);
        assert forall|s: int| 0 <= s < n implies #[trigger] seats@[s] < n by {
            assert(seats@.to_multiset().contains(seats@[s]));
            assert(identity.to_multiset().contains(seats@[s]));
            assert(identity.contains(seats@[s]));
            let k = choose|k: int| 0 <= k < identity.len() && identity[k] == seats@[s];
            assert(identity[k] == k);
        }
        identity.lemma_multiset_has_no_duplicates();
        assert forall|x: usize| seats@.to_multiset().contains(x) implies seats@.to_multiset().count(
            x,
        ) == 1 by {
            assert(identity.to_multiset().contains(x));
        }
        seats@.lemma_multiset_has_no_duplicates_conv();
        assert forall|i2: int, j2: int| 0 <= i2 < j2 < n implies seats@[i2] != seats@[j2] by {
            assert(seats@.no_duplicates());
        }
    }
    seats
}

/// Attribute the seat outcomes of one game back to script identities:
/// the script seated at `s` receives the result seat `s` earned.
pub fn attribute_results(seating: &Vec<usize>, seat_results: &Vec<PlayerResult>) -> (r: Vec<
    PlayerResult,
>)
    requires
        seating@.len() == seat_results@.len(),
        forall|s: int| 0 <= s < seating@.len() ==> #[trigger] seating@[s] < seating@.len(),
        forall|i: int, j: int| 0 <= i < j < seating@.len() ==> seating@[i] != seating@[j],
    ensures
        r@.len() == seating@.len(),
        forall|s: int|
            0 <= s < seating@.len() ==> r@[#[trigger] seating@[s] as int] == seat_results@[s],
{
    let n = seating.len();
    let mut r: Vec<PlayerResult> = Vec::new();
    let mut i: usize = 0;
    while i < n
        invariant
            0 <= i <= n,
            n == seat_results@.len(),
            r@.len() == i,
        decreases n - i,
    {
        r.push(seat_results[i]);
        i = i + 1;
    }
    let mut s: usize = 0;
    while s < n
        invariant
            0 <= s <= n,
            n == seating@.len(),
            n == seat_results@.len(),
            r@.len() == n,
            forall|t: int| 0 <= t < seating@.len() ==> #[trigger] seating@[t] < seating@.len(),
            forall|i2: int, j2: int| 0 <= i2 < j2 < n ==> seating@[i2] != seating@[j2],
            forall|t: int| 0 <= t < s ==> r@[#[trigger] seating@[t] as int] == seat_results@[t],
        decreases n - s,
    {
        let target = seating[s];
        r[target] = seat_results[s];
        proof {
            assert forall|t: int| 0 <= t < s + 1 implies r@[#[trigger] seating@[t] as int]
                == seat_results@[t] by {
                if t < s {
                    assert(seating@[t] != seating@[s as int]);
                }
            }
        }
        s = s + 1;
    }
    r
}

} // verus!
