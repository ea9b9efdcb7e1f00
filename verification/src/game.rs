//! One round of the game: the players take turns in a fixed order until one
//! of them has crossed the winning score and everyone else has had one more
//! turn.

use crate::game_logic::Rng;
use crate::player::{turn_played, Player, MAX_TURN_GAIN, WINNING_SCORE};
use vstd::prelude::*;

verus! {

/// The most turns that `Game::play` lets a round take. No round that can be
/// played in a lifetime comes near it.
pub const TURN_LIMIT: u64 = 0xffff_ffff_ffff_ffff;

/// A round: the players in the order of their turns, the player who first
/// crossed the winning score, the winner once there is one, and the stream
/// of dice that the round is played with.
pub struct Game<'a> {
    pub players: Vec<Player>,
    pub winner: Option<i32>,
    pub lead: Option<i32>,
    pub rng: &'a mut Rng,
}

/// A round as a mathematical value: the aggression values and the banked
/// scores in the order of the turns, the place of the player who first
/// crossed the winning score, the place of the winner, and the stream of
/// dice as it stands.
pub struct RoundView {
    pub aggressions: Seq<int>,
    pub scores: Seq<int>,
    pub lead: Option<int>,
    pub winner: Option<int>,
    pub stream: Rng,
}

impl RoundView {
    /// No player has crossed the winning score yet.
    pub open spec fn active(self) -> bool {
        &&& self.lead is None
        &&& self.winner is None
        &&& forall|j: int| 0 <= j < self.scores.len() ==> #[trigger] self.scores[j] <= WINNING_SCORE
    }

    /// The round with the player at place `i` declared the winner.
    pub open spec fn won_by(self, i: int) -> RoundView {
        RoundView {
            aggressions: self.aggressions,
            scores: self.scores,
            lead: self.lead,
            winner: Some(i),
            stream: self.stream,
        }
    }
}

/// The place of a player as a mathematical value.
pub open spec fn place(index: Option<i32>) -> Option<int> {
    match index {
        Some(i) => Some(i as int),
        None => None,
    }
}

impl<'a> View for Game<'a> {
    type V = RoundView;

    open spec fn view(&self) -> RoundView {
        RoundView {
            aggressions: Seq::new(
                self.players@.len(),
                |j: int| self.players@[j].aggression as int,
            ),
            scores: Seq::new(self.players@.len(), |j: int| self.players@[j].score as int),
            lead: place(self.lead),
            winner: place(self.winner),
            stream: *self.rng,
        }
    }
}

/// The round as it starts with the roster `roster` and the stream `stream`:
/// nothing banked, no lead, no winner.
pub open spec fn fresh_round(roster: Seq<i32>, stream: Rng) -> RoundView {
    RoundView {
        aggressions: Seq::new(roster.len(), |j: int| roster[j] as int),
        scores: Seq::new(roster.len(), |j: int| 0int),
        lead: None,
        winner: None,
        stream,
    }
}

/// The round after the player at place `i` has played a turn from the
/// stream, as a turn of the final round where there is a lead, and has
/// banked what it brought. The first player whom that brings above the
/// winning score becomes the lead.
pub open spec fn round_after_turn(round: RoundView, i: int) -> RoundView {
    let played = turn_played(
        round.aggressions[i],
        round.scores[i],
        round.lead is Some,
        round.stream,
    );
    let score = round.scores[i] + played.0.total;
    RoundView {
        aggressions: round.aggressions,
        scores: round.scores.update(i, score),
        lead: if round.lead is None && score > WINNING_SCORE {
            Some(i)
        } else {
            round.lead
        },
        winner: round.winner,
        stream: played.1,
    }
}

/// The place whose turn comes after that of place `i` among `n` players.
pub open spec fn next_place(i: int, n: int) -> int {
    if i + 1 == n {
        0
    } else {
        i + 1
    }
}

/// The round after it has gone on from the turn of place `i`, for at most
/// `turns` more turns: the players take turns in order, round and round;
/// when the place of the lead comes up again the lead is declared the winner
/// without another turn, and the round stops.
pub open spec fn round_run(round: RoundView, i: int, turns: nat) -> RoundView
    decreases turns,
{
    if round.lead == Some(i) {
        round.won_by(i)
    } else if turns == 0 {
        round
    } else {
        round_run(
            round_after_turn(round, i),
            next_place(i, round.scores.len() as int),
            (turns - 1) as nat,
        )
    }
}

/// The round as it ends when it is played from `start`, the first player
/// first: with a winner, or after `TURN_LIMIT` turns without one.
pub open spec fn round_played(start: RoundView) -> RoundView {
    round_run(start, 0, TURN_LIMIT as nat)
}

/// Whether the player at place `j` has had the one more turn of the final
/// round, when the lead is at place `lead`, the next turn is that of place
/// `next`, and `fresh` says that the lead crossed the winning score in the
/// pass that is under way.
spec fn had_last_turn(fresh: bool, lead: int, next: int, j: int) -> bool {
    if fresh {
        lead < j < next
    } else {
        j < next || j > lead
    }
}

impl<'a> Game<'a> {
    /// A round with one player for each entry of `aggressions`, in that
    /// order, each with nothing banked, to be played with the stream `rng`.
    /// No die is rolled.
    pub fn new_game(aggressions: &Vec<i32>, rng: &'a mut Rng) -> (game: Game<'a>)
        ensures
            game.players@.len() == aggressions@.len(),
            forall|i: int|
                0 <= i < aggressions@.len() ==> (#[trigger] game.players@[i]).aggression
                    == aggressions@[i] && game.players@[i].score == 0,
            game.winner is None,
            game.lead is None,
            *game.rng == *old(rng),
            *final(game.rng) == *final(rng),
            game@ == fresh_round(aggressions@, *old(rng)),
            game@.active(),
    {
        let mut players: Vec<Player> = Vec::new();
        let mut i: usize = 0;
        while i < aggressions.len()
            invariant
                i <= aggressions@.len(),
                players@.len() == i,
                forall|k: int|
                    0 <= k < i ==> (#[trigger] players@[k]).aggression == aggressions@[k]
                        && players@[k].score == 0,
            decreases aggressions@.len() - i,
        {
            players.push(Player::new(aggressions[i]));
            i += 1;
        }
        let game = Game { players, winner: None, lead: None, rng };
        proof {
            assert(game@.aggressions =~= fresh_round(aggressions@, *old(rng)).aggressions);
            assert(game@.scores =~= fresh_round(aggressions@, *old(rng)).scores);
        }
        game
    }

    /// The player at place `i` plays a turn from the stream, as a turn of
    /// the final round where there is a lead, and banks what it brought;
    /// where the player is the first to get above the winning score, they
    /// become the lead.
    pub fn take_turn(&mut self, i: usize)
        requires
            i < old(self).players@.len() <= i32::MAX,
            old(self).players@[i as int].score <= i32::MAX - MAX_TURN_GAIN,
        ensures
            final(self)@ == round_after_turn(old(self)@, i as int),
            *final(final(self).rng) == *final(old(self).rng),
            final(self).players@.len() == old(self).players@.len(),
            forall|j: int|
                0 <= j < old(self).players@.len() ==> (#[trigger] final(self).players@[j]).aggression
                    == old(self).players@[j].aggression,
            forall|j: int|
                0 <= j < old(self).players@.len() && j != i
                    ==> (#[trigger] final(self).players@[j]).score == old(self).players@[j].score,
            old(self).players@[i as int].score <= final(self).players@[i as int].score <= old(
                self,
            ).players@[i as int].score + MAX_TURN_GAIN,
            final(self).winner == old(self).winner,
            final(self).lead == if old(self).lead is None && final(self).players@[i as int].score
                > WINNING_SCORE {
                Some(i as i32)
            } else {
                old(self).lead
            },
    {
        let is_final = self.lead.is_some();
        let mut player = self.players[i];
        player.play_turn(is_final, self.rng);
        self.players[i] = player;
        if player.score > WINNING_SCORE {
            match self.lead {
                Some(_) => {},
                None => {
                    self.lead = Some(i as i32);
                },
            }
        }
        proof {
            assert(self@.scores =~= old(self)@.scores.update(i as int, player.score as int));
            assert(self@.aggressions =~= old(self)@.aggressions);
        }
    }

    /// Plays the round: the players take turns in order, round and round.
    ///
    /// The first player to cross the winning score is the lead; from then on
    /// every turn is a turn of the final round, and when the place of the
    /// lead comes up again, after every other player has had one more turn,
    /// the lead is the winner and takes no further turn. The round stops
    /// without a winner only after `TURN_LIMIT` turns.
    pub fn play(&mut self)
        requires
            1 <= old(self).players@.len() <= i32::MAX,
            old(self)@.active(),
        ensures
            final(self)@ == round_played(old(self)@),
            *final(final(self).rng) == *final(old(self).rng),
            final(self).players@.len() == old(self).players@.len(),
            forall|j: int|
                0 <= j < old(self).players@.len() ==> (#[trigger] final(self).players@[j]).aggression
                    == old(self).players@[j].aggression && final(self).players@[j].score >= old(
                    self,
                ).players@[j].score,
            final(self).winner matches Some(w) ==> final(self).lead == Some(w) && 0 <= w < old(
                self,
            ).players@.len() && WINNING_SCORE < final(self).players@[w as int].score
                <= WINNING_SCORE + MAX_TURN_GAIN,
    {
        let n = self.players.len();
        let mut i: usize = 0;
        let mut turns: u64 = 0;
        let ghost mut fresh: bool = false;
        proof {
            assert forall|j: int| 0 <= j < n implies (#[trigger] self.players@[j]).score
                <= WINNING_SCORE by {
                assert(self@.scores[j] == self.players@[j].score);
            }
        }
        loop
            invariant
                n == self.players@.len(),
                n == old(self).players@.len(),
                1 <= n <= i32::MAX,
                i < n,
                turns <= TURN_LIMIT,
                *final(self.rng) == *final(old(self).rng),
                self.winner is None,
                round_played(old(self)@) == round_run(
                    self@,
                    i as int,
                    (TURN_LIMIT - turns) as nat,
                ),
                forall|j: int|
                    0 <= j < n ==> (#[trigger] self.players@[j]).aggression == old(
                        self,
                    ).players@[j].aggression && self.players@[j].score >= old(
                        self,
                    ).players@[j].score,
                self.lead is None ==> forall|j: int|
                    0 <= j < n ==> (#[trigger] self.players@[j]).score <= WINNING_SCORE,
                self.lead matches Some(l) ==> {
                    &&& 0 <= l < n
                    &&& WINNING_SCORE < self.players@[l as int].score <= WINNING_SCORE
                        + MAX_TURN_GAIN
                    &&& if fresh {
                        l < i
                    } else {
                        i <= l
                    }
                    &&& forall|j: int|
                        0 <= j < n && j != l ==> (#[trigger] self.players@[j]).score
                            <= WINNING_SCORE + if had_last_turn(fresh, l as int, i as int, j) {
                            MAX_TURN_GAIN as int
                        } else {
                            0
                        }
                },
            decreases TURN_LIMIT - turns,
        {
            match self.lead {
                Some(id) => {
                    if id == i as i32 {
                        self.winner = Some(id);
                        return ;
                    }
                },
                None => {},
            }
            if turns == TURN_LIMIT {
                return ;
            }
            let ghost before = *self;
            self.take_turn(i);
            i += 1;
            if i == n {
                i = 0;
            }
            turns += 1;
            proof {
                if i == 0 {
                    fresh = false;
                } else if before.lead is None && self.lead is Some {
                    fresh = true;
                }
            }
        }
    }
}

/// A round of one player ends with that player as the winner as soon as a
/// turn has brought their score above the winning score: the final round
/// has nobody else to wait for, so the round ends as that turn left it.
pub proof fn lemma_single_player_wins(round: RoundView, turns: nat)
    requires
        round.scores.len() == 1,
        round.lead is None,
        round_after_turn(round, 0).scores[0] > WINNING_SCORE,
        turns >= 1,
    ensures
        round_run(round, 0, turns) == round_after_turn(round, 0).won_by(0),
{
    reveal_with_fuel(round_run, 3);
}

/// A round of one player that stops with a winner has that player as the
/// winner and as the lead.
pub proof fn lemma_single_player_round(round: RoundView, turns: nat)
    requires
        round.scores.len() == 1,
        round.winner is None,
        round.lead matches Some(l) ==> l == 0,
    ensures
        round_run(round, 0, turns).winner matches Some(w) ==> w == 0 && round_run(
            round,
            0,
            turns,
        ).lead == Some(0int),
    decreases turns,
{
    if round.lead != Some(0int) && turns > 0 {
        lemma_single_player_round(round_after_turn(round, 0), (turns - 1) as nat);
    }
}

} // verus!
