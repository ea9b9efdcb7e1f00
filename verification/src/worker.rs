//! A worker: it plays a number of rounds with one roster and tallies the
//! aggression of each winner.

use crate::game::{fresh_round, place, round_played, Game};
use crate::game_logic::{seed_of_millis, Rng};
use crate::master::{recorded, wins_of, Master};
use vstd::prelude::*;

verus! {

/// Why a worker gave up.
#[derive(Clone, Copy, Debug, PartialEq, Eq, Structural)]
pub enum GameFault {
    /// The system clock reads a time before the Unix epoch, so that no
    /// stream of dice could be seeded from it.
    ClockBeforeEpoch,
    /// A round stopped at the turn limit without a winner.
    NoWinner,
}

/// What a worker has to show: the tally of the rounds that had a winner,
/// whether a round stopped without one, and the stream of dice as the
/// worker leaves it.
pub struct WorkView {
    pub tally: Map<i32, int>,
    pub stalled: bool,
    pub stream: Rng,
}

/// The work of `games` more rounds with the roster `roster`, one after the
/// other, each played from the stream as the round before left it, with
/// `tally` to start from. Each round with a winner adds a win for the
/// aggression of that winner; the first round without one ends the work.
pub open spec fn games_played(roster: Seq<i32>, tally: Map<i32, int>, stream: Rng, games: nat) -> WorkView
    decreases games,
{
    if games == 0 {
        WorkView { tally, stalled: false, stream }
    } else {
        let round = round_played(fresh_round(roster, stream));
        match round.winner {
            Some(w) => games_played(
                roster,
                recorded(tally, roster[w]),
                round.stream,
                (games - 1) as nat,
            ),
            None => WorkView { tally, stalled: true, stream: round.stream },
        }
    }
}

/// The work of a worker that is asked for `range` rounds with the roster
/// `roster` and has the stream `stream`: nothing, where `range` is not
/// positive.
pub open spec fn work_of(range: int, roster: Seq<i32>, stream: Rng) -> WorkView {
    games_played(
        roster,
        Map::empty(),
        stream,
        if range > 0 {
            range as nat
        } else {
            0
        },
    )
}

/// The aggression values that the simulation starts from: fifty of them,
/// from 90 upwards in steps of 10.
pub fn starting_roster() -> (roster: Vec<i32>)
    ensures
        roster@.len() == 50,
        forall|i: int| 0 <= i < 50 ==> #[trigger] roster@[i] == 90 + 10 * i,
{
    let mut aggression_list: Vec<i32> = Vec::new();
    let mut i: i32 = 0;
    while i < 50
        invariant
            0 <= i <= 50,
            aggression_list@.len() == i,
            forall|k: int| 0 <= k < i ==> #[trigger] aggression_list@[k] == 90 + 10 * k,
        decreases 50 - i,
    {
        aggression_list.push(i * 10 + 90);
        i += 1;
    }
    aggression_list
}

/// Plays `range` rounds, one after the other, each with a fresh set of
/// players from `aggression_list` and with dice from `rng`, and tallies the
/// aggression of each winner. Gives up at the first round without a winner.
pub fn run_games(range: i32, aggression_list: &Vec<i32>, rng: &mut Rng) -> (result: Result<
    Master,
    GameFault,
>)
    requires
        range > 0 ==> 1 <= aggression_list@.len() <= i32::MAX,
    ensures
        *final(rng) == work_of(range as int, aggression_list@, *old(rng)).stream,
        match result {
            Ok(master) => {
                &&& !work_of(range as int, aggression_list@, *old(rng)).stalled
                &&& master@ == work_of(range as int, aggression_list@, *old(rng)).tally
            },
            Err(fault) => {
                &&& fault == GameFault::NoWinner
                &&& work_of(range as int, aggression_list@, *old(rng)).stalled
            },
        },
{
    let mut master = Master::new();
    let mut played: i32 = 0;
    while played < range
        invariant
            0 <= played,
            played <= range || played == 0,
            range > 0 ==> 1 <= aggression_list@.len() <= i32::MAX,
            forall|aggression: i32| wins_of(master@, aggression) <= played,
            work_of(range as int, aggression_list@, *old(rng)) == games_played(
                aggression_list@,
                master@,
                *rng,
                (if range > 0 {
                    range - played
                } else {
                    0
                }) as nat,
            ),
        decreases range - played,
    {
        let ghost stream = *rng;
        let ghost round = round_played(fresh_round(aggression_list@, stream));
        let mut game = Game::new_game(aggression_list, rng);
        game.play();
        let winner: Option<i32> = match game.winner {
            Some(index) => Some(game.players[index as usize].aggression),
            None => None,
        };
        proof {
            assert(game@ == round);
            assert(round.stream == *game.rng);
            assert(round.winner == place(game.winner));
        }
        assert(*rng == round.stream);
        let ghost tally = master@;
        match winner {
            Some(winner_aggression) => {
                master.record_game(winner_aggression);
                assert forall|aggression: i32| wins_of(master@, aggression) <= played + 1 by {
                    assert(wins_of(tally, aggression) <= played);
                }
            },
            None => {
                return Err(GameFault::NoWinner);
            },
        }
        played += 1;
    }
    Ok(master)
}

/// The work of one worker: seeds a stream of dice from the clock and plays
/// `range` rounds with it.
///
/// Whatever the clock reads, what comes back is the work that the stream of
/// some count of milliseconds gives, or the fault of the clock.
pub fn execute_game(range: i32, aggression_list: &Vec<i32>) -> (result: Result<Master, GameFault>)
    requires
        range > 0 ==> 1 <= aggression_list@.len() <= i32::MAX,
    ensures
        match result {
            Ok(master) => exists|millis: u128|
                {
                    let work = work_of(
                        range as int,
                        aggression_list@,
                        Rng::from_seed(#[trigger] seed_of_millis(millis)),
                    );
                    !work.stalled && master@ == work.tally
                },
            Err(fault) => fault == GameFault::NoWinner ==> exists|millis: u128|
                work_of(
                    range as int,
                    aggression_list@,
                    Rng::from_seed(#[trigger] seed_of_millis(millis)),
                ).stalled,
        },
{
    match Rng::new() {
        Ok(rng) => {
            let mut rng = rng;
            run_games(range, aggression_list, &mut rng)
        },
        Err(_) => Err(GameFault::ClockBeforeEpoch),
    }
}

} // verus!
