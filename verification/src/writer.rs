//! The broadcast writer's decision logic: the single serializer of all
//! outbound lines and log entries of one game.
//!
//! The writer owns its own live-set, separate from the orchestrator's
//! status array: a broken pipe only drops that child from future
//! deliveries and never touches the game. `handle` turns one message
//! into the totally ordered list of write actions the I/O layer must
//! perform; the layer reports each failed child write back through
//! `note_write_failure`.

use vstd::prelude::*;

use crate::digits::spec_usize_digits;
use crate::game::Direction;
use crate::parse_instruction::{spec_encode_instruction, Instruction};
use crate::running::Message;

verus! {

/// One thing the I/O layer must do, in order: write a line to one
/// child's stdin, or append a line to the log file. The newline is added
/// by the writer of the pipe or file.
#[derive(Clone, Debug)]
pub enum WriteAction {
    Send { player: usize, text: String },
    Log { text: String },
}

/// Whether `a` sends exactly `text` to `player`.
pub open spec fn is_send(a: WriteAction, player: int, text: Seq<char>) -> bool {
    match a {
        WriteAction::Send { player: q, text: t } => q == player && t@ == text,
        WriteAction::Log { .. } => false,
    }
}

/// Whether `a` logs exactly `text`.
pub open spec fn is_log(a: WriteAction, text: Seq<char>) -> bool {
    match a {
        WriteAction::Send { .. } => false,
        WriteAction::Log { text: t } => t@ == text,
    }
}

/// The seats a broadcast reaches: every live seat but `skip`, ascending.
pub open spec fn spec_recipients(live: Seq<bool>, skip: int) -> Seq<usize>
    decreases live.len(),
{
    if live.len() == 0 {
        Seq::empty()
    } else {
        spec_recipients(live.drop_last(), skip) + if live.last() && live.len() - 1 != skip {
            seq![(live.len() - 1) as usize]
        } else {
            Seq::empty()
        }
    }
}

/// Whether every player a message names exists among `n` seats.
pub open spec fn msg_in_range(msg: Message, n: int) -> bool {
    match msg {
        Message::CommunicateMove { direction, player } => player < n,
        Message::AskMove(player) => player < n,
        Message::Kill(player) => player < n,
        Message::SendHeader(_) => true,
    }
}

/// The broadcast writer's own state: which children it still delivers
/// to.
pub struct BroadcastWriter {
    pub live: Vec<bool>,
}

impl BroadcastWriter {
    pub open spec fn n(self) -> int {
        self.live@.len() as int
    }

    /// A fresh writer for a game of `n_players` children, all of them
    /// still deliverable.
    pub fn new(n_players: usize) -> (r: BroadcastWriter)
        ensures
            r.live@.len() == n_players,
            forall|q: int| 0 <= q < n_players ==> r.live@[q] == true,
    {
        let mut live: Vec<bool> = Vec::new();
        let mut i: usize = 0;
        while i < n_players
            invariant
                0 <= i <= n_players,
                live@.len() == i,
                forall|q: int| 0 <= q < i ==> live@[q] == true,
            decreases n_players - i,
        {
            live.push(true);
            i = i + 1;
        }
        BroadcastWriter { live }
    }

    /// A write to this child failed: drop it from future deliveries, and
    /// from them alone.
    pub fn note_write_failure(&mut self, player: usize)
        requires
            player < old(self).n(),
        ensures
            final(self).live@ == old(self).live@.update(player as int, false),
    {
        self.live[player] = false;
    }

    /// Turn one message into the ordered write actions it stands for:
    ///
    /// - `SendHeader(h)`: `h`, a newline and the recipient's own id to
    ///   every child, then `h` to the log, once.
    /// - `AskMove(p)`: the line `move` to child `p` alone.
    /// - `CommunicateMove`: the move line `player:DIR` to the log, then
    ///   to every live child but the mover.
    /// - `Kill(p)`: `p` leaves the live-set, receives `stop`, and every
    ///   remaining live child learns `out:p`.
    pub fn handle(&mut self, msg: Message) -> (acts: Vec<WriteAction>)
        requires
            msg_in_range(msg, old(self).n()),
        ensures
            final(self).n() == old(self).n(),
            match msg {
                Message::CommunicateMove { direction, player } => {
                    let text = spec_encode_instruction(
                        Instruction::Move { player, direction },
                    );
                    let recips = spec_recipients(old(self).live@, player as int);
                    &&& final(self).live@ == old(self).live@
                    &&& acts@.len() == 1 + recips.len()
                    &&& is_log(acts@[0], text)
                    &&& forall|i: int|
                        0 <= i < recips.len() ==> is_send(
                            #[trigger] acts@[1 + i],
                            recips[i] as int,
                            text,
                        )
                },
                Message::AskMove(player) => {
                    &&& final(self).live@ == old(self).live@
                    &&& acts@.len() == 1
                    &&& is_send(
                        acts@[0],
                        player as int,
                        spec_encode_instruction(Instruction::AskMove),
                    )
                },
                Message::Kill(player) => {
                    let live1 = old(self).live@.update(player as int, false);
                    let recips = spec_recipients(live1, player as int);
                    &&& final(self).live@ == live1
                    &&& acts@.len() == 1 + recips.len()
                    &&& is_send(
                        acts@[0],
                        player as int,
                        spec_encode_instruction(Instruction::Stop),
                    )
                    &&& forall|i: int|
                        0 <= i < recips.len() ==> is_send(
                            #[trigger] acts@[1 + i],
                            recips[i] as int,
                            spec_encode_instruction(Instruction::Out { player }),
                        )
                },
                Message::SendHeader(h) => {
                    &&& final(self).live@ == old(self).live@
                    &&& acts@.len() == old(self).n() + 1
                    &&& forall|q: int|
                        0 <= q < old(self).n() ==> is_send(
                            #[trigger] acts@[q],
                            q,
                            h@ + seq!['\n'] + spec_usize_digits(q as nat),
                        )
                    &&& is_log(acts@[old(self).n() as int], h@)
                },
            },
    {
        let mut acts: Vec<WriteAction> = Vec::new();
        match msg {
            Message::CommunicateMove { direction, player } => {
                let text = Instruction::Move { player, direction }.to_line();
                acts.push(WriteAction::Log { text: text.clone() });
                self.broadcast_to_others(player, &text, &mut acts);
            },
            Message::AskMove(player) => {
                acts.push(
                    WriteAction::Send { player, text: Instruction::AskMove.to_line() },
                );
            },
            Message::Kill(player) => {
                self.live[player] = false;
                acts.push(
                    WriteAction::Send { player, text: Instruction::Stop.to_line() },
                );
                let text = Instruction::Out { player }.to_line();
                self.broadcast_to_others(player, &text, &mut acts);
            },
            Message::SendHeader(h) => {
                proof {
                    reveal_strlit("\n");
                }
                let n = self.live.len();
                let mut q: usize = 0;
                while q < n
                    invariant
                        0 <= q <= n,
                        acts@.len() == q,
                        forall|j: int|
                            0 <= j < q ==> is_send(
                                #[trigger] acts@[j],
                                j,
                                h@ + seq!['\n'] + spec_usize_digits(j as nat),
                            ),
                    decreases n - q,
                {
                    let mut text = h.clone();
                    text.append("\n");
                    text.append(crate::digits::usize_to_string(q).as_str());
                    proof {
                        reveal_strlit("\n");
                        assert(text@ =~= h@ + seq!['\n'] + spec_usize_digits(q as nat));
                    }
                    acts.push(WriteAction::Send { player: q, text });
                    q = q + 1;
                }
                acts.push(WriteAction::Log { text: h });
            },
        }
        acts
    }

    /// Append one send of `text` for every live seat but `skip`,
    /// ascending.
    fn broadcast_to_others(&self, skip: usize, text: &String, acts: &mut Vec<WriteAction>)
        ensures
            final(acts)@.len() == old(acts)@.len() + spec_recipients(
                self.live@,
                skip as int,
            ).len(),
            forall|j: int|
                0 <= j < old(acts)@.len() ==> #[trigger] final(acts)@[j] == old(acts)@[j],
            forall|i: int|
                0 <= i < spec_recipients(self.live@, skip as int).len() ==> is_send(
                    #[trigger] final(acts)@[old(acts)@.len() + i],
                    spec_recipients(self.live@, skip as int)[i] as int,
                    text@,
                ),
    {
        let n = self.live.len();
        let base = acts.len();
        let mut q: usize = 0;
        while q < n
            invariant
                0 <= q <= n,
                n == self.live@.len(),
                base == old(acts)@.len(),
                acts@.len() == base + spec_recipients(self.live@.take(q as int), skip as int).len(),
                forall|j: int| 0 <= j < base ==> #[trigger] acts@[j] == old(acts)@[j],
                forall|i: int|
                    0 <= i < spec_recipients(self.live@.take(q as int), skip as int).len()
                        ==> is_send(
                        #[trigger] acts@[base + i],
                        spec_recipients(self.live@.take(q as int), skip as int)[i] as int,
                        text@,
                    ),
            decreases n - q,
        {
            proof {
                let t = self.live@.take(q + 1);
                assert(t.drop_last() =~= self.live@.take(q as int));
                assert(t.last() == self.live@[q as int]);
            }
            if self.live[q] && q != skip {
                acts.push(WriteAction::Send { player: q, text: text.clone() });
            }
            q = q + 1;
        }
        proof {
            assert(self.live@.take(n as int) =~= self.live@);
        }
    }
}

} // verus!
