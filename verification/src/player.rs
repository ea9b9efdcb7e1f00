//! A player and the strategy of one turn: roll, score, and decide whether to
//! roll again or to bank.

use crate::game_logic::{dice_rolled, roll_points, roll_remaining, score_dice, valid_roll, Rng};
use crate::game_logic::{lemma_roll_bounds, lemma_rolled};
use vstd::prelude::*;

verus! {

/// The least banked score, this turn's points included, at which a player
/// stops of their own accord.
pub const MIN_SCORE: i32 = 500;

/// The score above which a player triggers the final round.
pub const WINNING_SCORE: i32 = 10000;

/// No turn adds more than this to a score.
pub const MAX_TURN_GAIN: i32 = 11199;

/// A player: a fixed aggression and the points banked so far.
#[derive(Clone, Copy, Debug, PartialEq, Eq, Structural)]
pub struct Player {
    pub score: i32,
    pub aggression: i32,
}

/// A turn while it is played: the dice for the next roll, the points of the
/// turn so far, and whether the turn has ended.
#[derive(Clone, Copy, Debug, PartialEq, Eq, Structural)]
pub struct Turn {
    pub dice_amount: i32,
    pub running_total: i32,
    pub over: bool,
}

/// A turn as a mathematical value.
pub struct TurnView {
    pub dice: int,
    pub total: int,
    pub over: bool,
}

impl TurnView {
    /// The turn as it starts: five dice, no points.
    pub open spec fn start() -> TurnView {
        TurnView { dice: 5, total: 0, over: false }
    }

    /// The turn goes on: it has from one to five dice for the next roll and
    /// its points are short of the winning score.
    pub open spec fn in_progress(self) -> bool {
        &&& !self.over
        &&& 1 <= self.dice <= 5
        &&& 0 <= self.total < WINNING_SCORE
    }

    /// The turn has ended with points that one turn can bring.
    pub open spec fn ended(self) -> bool {
        &&& self.over
        &&& 0 <= self.total <= MAX_TURN_GAIN
    }
}

impl View for Turn {
    type V = TurnView;

    open spec fn view(&self) -> TurnView {
        TurnView {
            dice: self.dice_amount as int,
            total: self.running_total as int,
            over: self.over,
        }
    }
}

/// The turn after one more roll that brought `points` and left `remaining`
/// dice over.
///
/// A roll without points is a bust: the turn ends and its points are lost.
/// Otherwise the points are added and the dice left over are those of the
/// next roll, five again where none is left over. The turn then ends where the points of the turn and of
/// this roll together reach the winning score. Short of that, a turn of the
/// final round goes on; any other turn ends once its points reach
/// `aggression` times the dice of the next roll and bring the banked score
/// to `MIN_SCORE`.
pub open spec fn turn_after_roll(
    aggression: int,
    banked: int,
    is_final: bool,
    turn: TurnView,
    points: int,
    remaining: int,
) -> TurnView {
    if points == 0 {
        TurnView { dice: turn.dice, total: 0, over: true }
    } else {
        let dice = if remaining == 0 { 5 } else { remaining };
        let total = turn.total + points;
        TurnView {
            dice,
            total,
            over: total + points >= WINNING_SCORE || (!is_final && total >= aggression * dice
                && banked + total >= MIN_SCORE),
        }
    }
}

/// The turn and the stream of dice after at most `rolls` more rolls from
/// the stream: each roll has the dice that the turn has for it, and rolling
/// stops where the turn has ended.
pub open spec fn turn_run(
    aggression: int,
    banked: int,
    is_final: bool,
    turn: TurnView,
    rng: Rng,
    rolls: nat,
) -> (TurnView, Rng)
    decreases rolls,
{
    if rolls == 0 || turn.over {
        (turn, rng)
    } else {
        let dice = rng.rolled(turn.dice);
        turn_run(
            aggression,
            banked,
            is_final,
            turn_after_roll(
                aggression,
                banked,
                is_final,
                turn,
                roll_points(dice),
                roll_remaining(dice),
            ),
            rng.after_roll(turn.dice),
            (rolls - 1) as nat,
        )
    }
}

/// The turn that a player with this aggression and this banked score plays
/// from the stream `rng`, as it ends, and the stream as the turn leaves it.
///
/// Every roll that does not end a turn brings points, and the turn ends
/// before they reach the winning score: no turn has as many rolls as the
/// winning score has points, so the bound on the rolls cuts nothing off.
pub open spec fn turn_played(aggression: int, banked: int, is_final: bool, rng: Rng) -> (
    TurnView,
    Rng,
) {
    turn_run(aggression, banked, is_final, TurnView::start(), rng, WINNING_SCORE as nat)
}

/// A roll in a turn that goes on leaves a turn that goes on or has ended.
pub proof fn lemma_roll_keeps_turn(
    aggression: int,
    banked: int,
    is_final: bool,
    turn: TurnView,
    dice: Seq<Option<i32>>,
)
    requires
        turn.in_progress(),
        valid_roll(dice),
        dice_rolled(dice) <= 5,
    ensures
        ({
            let after = turn_after_roll(
                aggression,
                banked,
                is_final,
                turn,
                roll_points(dice),
                roll_remaining(dice),
            );
            &&& after.in_progress() || after.ended()
            &&& after.total == 0 || after.total > turn.total
        }),
{
    lemma_roll_bounds(dice);
}

/// A turn that goes on, with enough rolls left to reach the winning score
/// one point at a time, has ended when the rolls are done.
pub proof fn lemma_turn_run_ends(
    aggression: int,
    banked: int,
    is_final: bool,
    turn: TurnView,
    rng: Rng,
    rolls: nat,
)
    requires
        turn.in_progress() || turn.ended(),
        turn.in_progress() ==> rolls >= WINNING_SCORE - turn.total,
    ensures
        turn_run(aggression, banked, is_final, turn, rng, rolls).0.ended(),
    decreases rolls,
{
    if !turn.over {
        let dice = rng.rolled(turn.dice);
        lemma_rolled(rng, turn.dice);
        lemma_roll_keeps_turn(aggression, banked, is_final, turn, dice);
        lemma_turn_run_ends(
            aggression,
            banked,
            is_final,
            turn_after_roll(
                aggression,
                banked,
                is_final,
                turn,
                roll_points(dice),
                roll_remaining(dice),
            ),
            rng.after_roll(turn.dice),
            (rolls - 1) as nat,
        );
    }
}

/// A turn played from any stream ends, and banks no less than nothing and
/// no more than `MAX_TURN_GAIN`.
pub proof fn lemma_turn_played_ends(aggression: int, banked: int, is_final: bool, rng: Rng)
    ensures
        turn_played(aggression, banked, is_final, rng).0.ended(),
{
    lemma_turn_run_ends(
        aggression,
        banked,
        is_final,
        TurnView::start(),
        rng,
        WINNING_SCORE as nat,
    );
}

impl Player {
    /// A player with nothing banked.
    pub fn new(aggression: i32) -> (player: Player)
        ensures
            player.aggression == aggression,
            player.score == 0,
    {
        Player { aggression, score: 0 }
    }

    /// Takes one roll into a turn of this player: scores `dice` and decides
    /// whether the turn goes on.
    pub fn take_roll(&self, is_final: bool, turn: &mut Turn, dice: &[Option<i32>; 5])
        requires
            old(turn)@.in_progress(),
            valid_roll(dice@),
        ensures
            final(turn)@ == turn_after_roll(
                self.aggression as int,
                self.score as int,
                is_final,
                old(turn)@,
                roll_points(dice@),
                roll_remaining(dice@),
            ),
            final(turn)@.in_progress() || final(turn)@.ended(),
    {
        proof {
            lemma_roll_bounds(dice@);
        }
        let (score, dic) = score_dice(dice);
        if score == 0 {
            turn.running_total = 0;
            turn.over = true;
            return ;
        }
        turn.dice_amount = dic;
        if turn.dice_amount == 0 {
            turn.dice_amount = 5;
        }
        turn.running_total += score;
        if turn.running_total + score >= WINNING_SCORE {
            turn.over = true;
            return ;
        }
        if is_final {
            return ;
        }
        assert(-0x8000_0000 * 5 <= self.aggression * turn.dice_amount <= 0x7fff_ffff * 5)
            by (nonlinear_arith)
            requires
                -0x8000_0000 <= self.aggression <= 0x7fff_ffff,
                1 <= turn.dice_amount <= 5,
        ;
        let wanted: i64 = (self.aggression as i64) * (turn.dice_amount as i64);
        let banked: i64 = (self.score as i64) + (turn.running_total as i64);
        if turn.running_total as i64 >= wanted && banked >= MIN_SCORE as i64 {
            turn.over = true;
        }
    }

    /// Plays one turn with dice from `rng` and banks its points: the turn
    /// that the stream gives, roll by roll, until it ends. The score does
    /// not fall, and a bust leaves it as it was.
    pub fn play_turn(&mut self, is_final: bool, rng: &mut Rng)
        requires
            old(self).score <= i32::MAX - MAX_TURN_GAIN,
        ensures
            final(self).aggression == old(self).aggression,
            final(self).score == old(self).score + turn_played(
                old(self).aggression as int,
                old(self).score as int,
                is_final,
                *old(rng),
            ).0.total,
            *final(rng) == turn_played(
                old(self).aggression as int,
                old(self).score as int,
                is_final,
                *old(rng),
            ).1,
            old(self).score <= final(self).score <= old(self).score + MAX_TURN_GAIN,
    {
        let mut turn = Turn { dice_amount: 5, running_total: 0, over: false };
        let ghost aggression = self.aggression as int;
        let ghost banked = self.score as int;
        let ghost mut left: nat = WINNING_SCORE as nat;
        while !turn.over
            invariant
                *self == *old(self),
                aggression == self.aggression,
                banked == self.score,
                turn@.in_progress() || turn@.ended(),
                turn@.in_progress() ==> left >= WINNING_SCORE - turn.running_total,
                turn_played(aggression, banked, is_final, *old(rng)) == turn_run(
                    aggression,
                    banked,
                    is_final,
                    turn@,
                    *rng,
                    left,
                ),
            decreases
                    (if turn.over {
                        0int
                    } else {
                        1 + WINNING_SCORE - turn.running_total
                    }),
        {
            let ghost before = turn@;
            let dice = rng.roll_dice(turn.dice_amount);
            self.take_roll(is_final, &mut turn, &dice);
            proof {
                lemma_roll_keeps_turn(aggression, banked, is_final, before, dice@);
                left = (left - 1) as nat;
            }
        }
        self.score += turn.running_total;
    }
}

/// A turn whose first roll brings no points ends with that roll and banks
/// nothing: the score stays as it was, and the stream has moved on by the
/// five dice of that roll.
pub proof fn lemma_bust_on_first_roll(aggression: int, banked: int, is_final: bool, rng: Rng)
    requires
        roll_points(rng.rolled(5)) == 0,
    ensures
        turn_played(aggression, banked, is_final, rng).0.total == 0,
        turn_played(aggression, banked, is_final, rng).0.over,
        turn_played(aggression, banked, is_final, rng).1 == rng.after_roll(5),
{
    reveal_with_fuel(turn_run, 3);
}

} // verus!
