//! The dice and the scoring rules: a stream of dice to roll from, and how a
//! roll of up to five dice turns into points and into the number of dice
//! that may be rolled again.

use rand::{RngCore, SeedableRng};
use rand_xoshiro::Xoshiro256StarStar;
use std::time::{Duration, SystemTime, SystemTimeError};
use vstd::multiset::Multiset;
use vstd::prelude::*;

verus! {

/// The generator of `rand_xoshiro`. Nothing is known of its state.
#[verifier::external_type_specification]
#[verifier::external_body]
pub struct ExXoshiro256StarStar(Xoshiro256StarStar);

/// A reading of the system clock.
#[verifier::external_type_specification]
#[verifier::external_body]
pub struct ExSystemTime(SystemTime);

/// The error of a clock that reads earlier than the moment it is held against.
#[verifier::external_type_specification]
#[verifier::external_body]
pub struct ExSystemTimeError(SystemTimeError);

/// The generator that `SeedableRng::seed_from_u64` of `Xoshiro256StarStar`
/// gives for `seed`. Its state is spread out from the seed by integer
/// arithmetic alone, so that it is the same wherever it is computed.
pub uninterp spec fn seeded_generator(seed: u64) -> Xoshiro256StarStar;

/// `SeedableRng::seed_from_u64` of `Xoshiro256StarStar`: the generator that
/// belongs to `seed`. Of its state no more is claimed than that the seed
/// alone decides it.
#[verifier::external_body]
fn generator_from_seed(seed: u64) -> (gen: Xoshiro256StarStar)
    ensures
        gen == seeded_generator(seed),
{
    Xoshiro256StarStar::seed_from_u64(seed)
}

/// The 32 bits that `RngCore::next_u32` of `Xoshiro256StarStar` hands out
/// for a generator: the upper half of a scrambled word of its state.
pub uninterp spec fn drawn_bits(gen: Xoshiro256StarStar) -> u32;

/// The generator as `RngCore::next_u32` of `Xoshiro256StarStar` leaves it:
/// its state is mixed on by shifts, rotations and exclusive or.
pub uninterp spec fn moved_on(gen: Xoshiro256StarStar) -> Xoshiro256StarStar;

/// `RngCore::next_u32` of `Xoshiro256StarStar`: hands out the bits that
/// belong to the generator and moves the generator on. Both are decided by
/// the generator alone; of neither is more claimed than that.
#[verifier::external_body]
fn next_raw(gen: &mut Xoshiro256StarStar) -> (raw: u32)
    ensures
        raw == drawn_bits(*old(gen)),
        *final(gen) == moved_on(*old(gen)),
{
    gen.next_u32()
}

/// `SystemTime::now`: the clock as it reads at the call.
#[verifier::external_body]
fn clock_now() -> SystemTime {
    SystemTime::now()
}

/// `SystemTime::duration_since`, held against `SystemTime::UNIX_EPOCH`: the
/// time since the epoch, or an error where the clock reads before it.
#[verifier::external_body]
fn since_epoch(now: &SystemTime) -> Result<Duration, SystemTimeError> {
    now.duration_since(SystemTime::UNIX_EPOCH)
}

/// `Duration::as_millis`: the whole milliseconds of a span.
#[verifier::external_body]
fn whole_millis(span: &Duration) -> u128 {
    span.as_millis()
}

/// Why no generator could be seeded from the clock.
#[derive(Clone, Copy, Debug, PartialEq, Eq, Structural)]
pub enum ClockError {
    /// The system clock reads a time before the Unix epoch.
    BeforeEpoch,
}

/// The seed that a count of milliseconds stands for: its low 64 bits.
pub open spec fn seed_of_millis(millis: u128) -> u64 {
    (millis % 0x1_0000_0000_0000_0000) as u64
}

/// The seed that a clock reading gives: its low 64 bits.
pub fn seed_from_millis(millis: u128) -> (seed: u64)
    ensures
        seed == millis % 0x1_0000_0000_0000_0000,
        seed == seed_of_millis(millis),
{
    let low: u128 = millis % 0x1_0000_0000_0000_0000u128;
    low as u64
}

/// The face that 32 raw bits stand for: their remainder by six, counted
/// from 1.
pub open spec fn face_of(raw: u32) -> i32 {
    (raw % 6 + 1) as i32
}

/// The face that 32 raw bits stand for: their remainder by six, counted
/// from 1.
pub fn die_face(raw: u32) -> (face: i32)
    ensures
        face == face_of(raw),
        face == raw % 6 + 1,
        1 <= face <= 6,
{
    ((raw % 6) + 1) as i32
}

/// A stream of dice.
pub struct Rng {
    gen: Xoshiro256StarStar,
}

impl Rng {
    /// The stream that belongs to `seed`, as it stands before the first roll.
    pub closed spec fn from_seed(seed: u64) -> Rng {
        Rng { gen: seeded_generator(seed) }
    }

    /// The face of the die that the stream hands out next.
    pub closed spec fn next_face(self) -> i32 {
        face_of(drawn_bits(self.gen))
    }

    /// The stream after it has handed out one die.
    pub closed spec fn after_draw(self) -> Rng {
        Rng { gen: moved_on(self.gen) }
    }

    /// The stream after it has handed out `n` dice.
    pub open spec fn after_draws(self, n: nat) -> Rng
        decreases n,
    {
        if n == 0 {
            self
        } else {
            self.after_draws((n - 1) as nat).after_draw()
        }
    }

    /// The face of the die that the stream hands out after `i` others.
    pub open spec fn face_at(self, i: nat) -> i32 {
        self.after_draws(i).next_face()
    }

    /// The roll of `dice_num` dice that the stream gives: its next dice, in
    /// the order in which they come, fill the first `dice_num` places.
    pub open spec fn rolled(self, dice_num: int) -> Seq<Option<i32>> {
        Seq::new(
            5,
            |i: int|
                if i < dice_num {
                    Some(self.face_at(i as nat))
                } else {
                    None
                },
        )
    }

    /// The stream after a roll of `dice_num` dice: moved on by as many dice.
    pub open spec fn after_roll(self, dice_num: int) -> Rng {
        self.after_draws(
            if dice_num < 0 {
                0nat
            } else {
                dice_num as nat
            },
        )
    }

    /// Rolls `dice_num` dice: the next dice of the stream, in the order in
    /// which they come, fill the first `dice_num` entries, the other entries
    /// are `None`, and the stream has moved on by `dice_num` dice.
    pub fn roll_dice(&mut self, dice_num: i32) -> (result: [Option<i32>; 5])
        requires
            dice_num <= 5,
        ensures
            result@ == old(self).rolled(dice_num as int),
            *final(self) == old(self).after_roll(dice_num as int),
            valid_roll(result@),
            forall|i: int| 0 <= i < 5 ==> (#[trigger] result[i] is Some <==> i < dice_num),
            dice_rolled(result@) == if dice_num < 0 { 0 } else { dice_num as int },
    {
        let mut result: [Option<i32>; 5] = [None; 5];
        let mut i: i32 = 0;
        assert(result@ =~= old(self).rolled(0));
        while i < dice_num
            invariant
                0 <= i <= 5,
                dice_num <= 5,
                i <= dice_num || i == 0,
                result@ == old(self).rolled(i as int),
                *self == old(self).after_draws(i as nat),
            decreases dice_num - i,
        {
            let ghost stream = *self;
            let num: i32 = die_face(next_raw(&mut self.gen));
            assert(num == stream.next_face());
            assert(*self == stream.after_draw());
            result[i as usize] = Some(num);
            assert(result@ =~= old(self).rolled(i + 1));
            i += 1;
        }
        proof {
            lemma_rolled(*old(self), dice_num as int);
            assert(result@ =~= old(self).rolled(dice_num as int));
        }
        result
    }

    /// A stream seeded from the clock: from the milliseconds since the Unix
    /// epoch. Fails where the clock reads before the epoch.
    ///
    /// Whatever the clock reads, a stream that comes back is the one that
    /// belongs to the low 64 bits of some count of milliseconds, and the
    /// only error is `BeforeEpoch`.
    pub fn new() -> (result: Result<Rng, ClockError>)
        ensures
            match result {
                Ok(rng) => exists|millis: u128|
                    rng == Rng::from_seed(#[trigger] seed_of_millis(millis)),
                Err(fault) => fault == ClockError::BeforeEpoch,
            },
    {
        let now = clock_now();
        match since_epoch(&now) {
            Ok(span) => {
                let millis: u128 = whole_millis(&span);
                let rng = Rng::seeded(seed_from_millis(millis));
                assert(rng == Rng::from_seed(seed_of_millis(millis)));
                Ok(rng)
            },
            Err(_) => Err(ClockError::BeforeEpoch),
        }
    }

    /// The stream that belongs to `seed`: the seed alone decides it.
    pub fn seeded(seed: u64) -> (result: Rng)
        ensures
            result == Rng::from_seed(seed),
    {
        Rng { gen: generator_from_seed(seed) }
    }
}

/// Every die of a stream shows a face from 1 to 6.
pub proof fn lemma_face_in_range(rng: Rng)
    ensures
        1 <= rng.next_face() <= 6,
{
}

/// A roll that a stream gives is a valid roll, of as many dice as were
/// asked for.
pub proof fn lemma_rolled(rng: Rng, dice_num: int)
    requires
        dice_num <= 5,
    ensures
        valid_roll(rng.rolled(dice_num)),
        dice_rolled(rng.rolled(dice_num)) == if dice_num < 0 { 0 } else { dice_num },
        forall|i: int| 0 <= i < 5 ==> (#[trigger] rng.rolled(dice_num)[i] is Some <==> i < dice_num),
    decreases dice_num,
{
    if dice_num <= 0 {
        lemma_nothing_rolled(rng.rolled(dice_num));
    } else {
        let before = rng.rolled(dice_num - 1);
        let face = rng.face_at((dice_num - 1) as nat);
        lemma_rolled(rng, dice_num - 1);
        lemma_face_in_range(rng.after_draws((dice_num - 1) as nat));
        lemma_die_added(before, dice_num - 1, face);
        assert(rng.rolled(dice_num) =~= before.update(dice_num - 1, Some(face)));
    }
}

/// A roll whose entries are all `None` holds no die.
pub proof fn lemma_nothing_rolled(dice: Seq<Option<i32>>)
    requires
        forall|i: int| 0 <= i < dice.len() ==> dice[i] is None,
    ensures
        dice_rolled(dice) == 0,
        valid_roll(dice),
    decreases dice.len(),
{
    broadcast use vstd::seq_lib::group_to_multiset_ensures;

    if dice.len() == 0 {
        assert(dice.to_multiset() =~= Multiset::empty());
    } else {
        lemma_nothing_rolled(dice.drop_last());
        assert(dice =~= dice.drop_last().push(dice.last()));
        lemma_face_count_push(dice.drop_last(), dice.last(), 1);
    }
}

/// Putting a die with a face from 1 to 6 in an empty place of a valid roll
/// gives a valid roll with one die more.
pub proof fn lemma_die_added(dice: Seq<Option<i32>>, place: int, face: i32)
    requires
        valid_roll(dice),
        0 <= place < dice.len(),
        dice[place] is None,
        1 <= face <= 6,
    ensures
        valid_roll(dice.update(place, Some(face))),
        dice_rolled(dice.update(place, Some(face))) == dice_rolled(dice) + 1,
{
    broadcast use vstd::seq_lib::group_to_multiset_ensures;

    let after = dice.update(place, Some(face));
    assert(after.to_multiset() =~= dice.to_multiset().insert(Some(face)).remove(dice[place]));
    assert(dice.to_multiset().count(None) > 0) by {
        assert(dice.contains(dice[place]));
    }
}

/// Every die that was rolled shows a face from 1 to 6. A `None` entry is a
/// die that was not rolled.
pub open spec fn valid_roll(dice: Seq<Option<i32>>) -> bool {
    forall|i: int|
        0 <= i < dice.len() ==> match #[trigger] dice[i] {
            Some(face) => 1 <= face <= 6,
            None => true,
        }
}

/// How many dice of the roll show `face`.
pub open spec fn face_count(dice: Seq<Option<i32>>, face: i32) -> nat {
    dice.to_multiset().count(Some(face))
}

/// How many dice were rolled: the entries that are not `None`.
pub open spec fn dice_rolled(dice: Seq<Option<i32>>) -> int {
    dice.len() - dice.to_multiset().count(None)
}

/// What three dice of one face are worth.
pub open spec fn triple_value(face: int) -> int {
    if face == 1 {
        1000
    } else {
        face * 100
    }
}

/// The dice of one face that are left once a triple, if there is one, has
/// been taken out of `n` of them.
pub open spec fn loose_dice(n: int) -> int {
    if n >= 3 {
        n - 3
    } else {
        n
    }
}

/// The points that `n` dice of one face bring: a triple if there are three,
/// and 100 for each further 1, 50 for each further 5.
pub open spec fn face_points(face: int, n: int) -> int {
    (if n >= 3 {
        triple_value(face)
    } else {
        0
    }) + (if face == 1 {
        100 * loose_dice(n)
    } else if face == 5 {
        50 * loose_dice(n)
    } else {
        0
    })
}

/// How many of `n` dice of one face are used up by scoring: the three of a
/// triple, and every further 1 or 5.
pub open spec fn face_consumed(face: int, n: int) -> int {
    (if n >= 3 {
        3int
    } else {
        0int
    }) + (if face == 1 || face == 5 {
        loose_dice(n)
    } else {
        0
    })
}

/// The points of a roll: each face scores on its own.
pub open spec fn roll_points(dice: Seq<Option<i32>>) -> int {
    face_points(1, face_count(dice, 1) as int) + face_points(2, face_count(dice, 2) as int)
        + face_points(3, face_count(dice, 3) as int) + face_points(4, face_count(dice, 4) as int)
        + face_points(5, face_count(dice, 5) as int) + face_points(6, face_count(dice, 6) as int)
}

/// The dice of a roll that scoring uses up.
pub open spec fn roll_consumed(dice: Seq<Option<i32>>) -> int {
    face_consumed(1, face_count(dice, 1) as int) + face_consumed(2, face_count(dice, 2) as int)
        + face_consumed(3, face_count(dice, 3) as int) + face_consumed(
        4,
        face_count(dice, 4) as int,
    ) + face_consumed(5, face_count(dice, 5) as int) + face_consumed(
        6,
        face_count(dice, 6) as int,
    )
}

/// The dice of a roll that scoring leaves over, to be rolled again.
pub open spec fn roll_remaining(dice: Seq<Option<i32>>) -> int {
    dice_rolled(dice) - roll_consumed(dice)
}

/// Putting one more entry at the end of a roll raises the count of the face
/// it shows by one and leaves the other counts alone.
pub proof fn lemma_face_count_push(dice: Seq<Option<i32>>, die: Option<i32>, face: i32)
    ensures
        face_count(dice.push(die), face) == face_count(dice, face) + (if die == Some(face) {
            1nat
        } else {
            0nat
        }),
        dice_rolled(dice.push(die)) == dice_rolled(dice) + (if die is Some {
            1int
        } else {
            0int
        }),
{
    broadcast use vstd::seq_lib::group_to_multiset_ensures;

    assert(dice.push(die).to_multiset() =~= dice.to_multiset().insert(die));
}

/// The faces of a valid roll account for every die that was rolled.
pub proof fn lemma_faces_cover_roll(dice: Seq<Option<i32>>)
    requires
        valid_roll(dice),
    ensures
        dice_rolled(dice) == face_count(dice, 1) + face_count(dice, 2) + face_count(dice, 3)
            + face_count(dice, 4) + face_count(dice, 5) + face_count(dice, 6),
    decreases dice.len(),
{
    broadcast use vstd::seq_lib::group_to_multiset_ensures;

    if dice.len() == 0 {
        assert(dice.to_multiset() =~= Multiset::empty());
    } else {
        let front = dice.drop_last();
        let die = dice.last();
        assert(dice =~= front.push(die));
        assert(valid_roll(front)) by {
            assert forall|i: int| 0 <= i < front.len() implies match #[trigger] front[i] {
                Some(face) => 1 <= face <= 6,
                None => true,
            } by {
                assert(front[i] == dice[i]);
            }
        }
        lemma_faces_cover_roll(front);
        lemma_face_count_push(front, die, 1);
        lemma_face_count_push(front, die, 2);
        lemma_face_count_push(front, die, 3);
        lemma_face_count_push(front, die, 4);
        lemma_face_count_push(front, die, 5);
        lemma_face_count_push(front, die, 6);
        assert(dice[dice.len() - 1] == die);
    }
}

/// Counts the dice of each face: entry `f` of the result is the number of
/// dice that show `f`, and entry 0 stays 0.
pub fn get_quants(dice: &[Option<i32>; 5]) -> (result: [i32; 7])
    requires
        valid_roll(dice@),
    ensures
        result[0] == 0,
        forall|face: i32| 1 <= face <= 6 ==> result[face as int] == #[trigger] face_count(dice@, face),
{
    let mut result: [i32; 7] = [0; 7];
    let mut i: usize = 0;
    proof {
        broadcast use vstd::seq_lib::group_to_multiset_ensures;
        assert(dice@.take(0).to_multiset() =~= Multiset::empty());
    }
    while i < 5
        invariant
            i <= 5,
            valid_roll(dice@),
            result[0] == 0,
            forall|face: i32|
                1 <= face <= 6 ==> result[face as int] == #[trigger] face_count(
                    dice@.take(i as int),
                    face,
                ),
            forall|face: i32| 1 <= face <= 6 ==> 0 <= #[trigger] result[face as int] <= i,
        decreases 5 - i,
    {
        let ghost before = result;
        match dice[i] {
            Some(num) => {
                let slot: usize = num as usize;
                let seen: i32 = result[slot];
                result[slot] = seen + 1;
            },
            None => {},
        }
        proof {
            assert(dice@.take(i + 1) =~= dice@.take(i as int).push(dice@[i as int]));
            assert forall|face: i32| 1 <= face <= 6 implies result[face as int]
                == #[trigger] face_count(dice@.take(i + 1), face) by {
                lemma_face_count_push(dice@.take(i as int), dice@[i as int], face);
                assert(before[face as int] == face_count(dice@.take(i as int), face));
            }
        }
        i += 1;
    }
    proof {
        assert(dice@.take(5) =~= dice@);
    }
    result
}

/// The points and the dice used up by the loose dice of one face: `score`
/// for each of the `quants[num]` dice, and all of them used up.
pub fn get_score_quantity(quants: &[i32; 7], num: i32, score: i32) -> (result: (i32, i32))
    requires
        0 <= num <= 6,
        i32::MIN <= score * quants[num as int] <= i32::MAX,
    ensures
        result.0 == score * quants[num as int],
        result.1 == quants[num as int],
{
    let quantity: i32 = quants[num as usize];
    (score * quantity, quantity)
}

/// The triple of one face among `n` dice: its points, or 0 without one.
spec fn triple_points(face: int, n: int) -> int {
    if n >= 3 {
        triple_value(face)
    } else {
        0
    }
}

/// `value` once the scan over the faces has passed `face`, 0 before.
spec fn scanned(face: int, next: int, value: int) -> int {
    if face < next {
        value
    } else {
        0
    }
}

/// Scores a roll: the points it brings and the number of dice that scoring
/// leaves over. A triple brings 1000 points for 1s and a hundred times the
/// face otherwise; each further 1 brings 100 and each further 5 brings 50.
/// The dice that bring points are used up, the others are left over.
pub fn score_dice(dice: &[Option<i32>; 5]) -> (result: (i32, i32))
    requires
        valid_roll(dice@),
    ensures
        result.0 == roll_points(dice@),
        result.1 == roll_remaining(dice@),
        0 <= result.1 <= dice_rolled(dice@),
        0 <= result.0 <= 1200,
{
    let mut score: i32 = 0;
    let mut remaining_dice: i32 = 0;
    let mut quants = get_quants(dice);
    let ghost c1 = face_count(dice@, 1) as int;
    let ghost c2 = face_count(dice@, 2) as int;
    let ghost c3 = face_count(dice@, 3) as int;
    let ghost c4 = face_count(dice@, 4) as int;
    let ghost c5 = face_count(dice@, 5) as int;
    let ghost c6 = face_count(dice@, 6) as int;
    proof {
        lemma_faces_cover_roll(dice@);
        assert(dice_rolled(dice@) <= 5);
    }
    let mut dice_num: usize = 0;
    while dice_num < 7
        invariant
            dice_num <= 7,
            c1 == face_count(dice@, 1),
            c2 == face_count(dice@, 2),
            c3 == face_count(dice@, 3),
            c4 == face_count(dice@, 4),
            c5 == face_count(dice@, 5),
            c6 == face_count(dice@, 6),
            c1 + c2 + c3 + c4 + c5 + c6 <= 5,
            quants[0] == 0,
            quants[1] == if 1 < dice_num { loose_dice(c1) } else { c1 },
            quants[2] == if 2 < dice_num { loose_dice(c2) } else { c2 },
            quants[3] == if 3 < dice_num { loose_dice(c3) } else { c3 },
            quants[4] == if 4 < dice_num { loose_dice(c4) } else { c4 },
            quants[5] == if 5 < dice_num { loose_dice(c5) } else { c5 },
            quants[6] == if 6 < dice_num { loose_dice(c6) } else { c6 },
            score == scanned(1, dice_num as int, triple_points(1, c1)) + scanned(
                2,
                dice_num as int,
                triple_points(2, c2),
            ) + scanned(3, dice_num as int, triple_points(3, c3)) + scanned(
                4,
                dice_num as int,
                triple_points(4, c4),
            ) + scanned(5, dice_num as int, triple_points(5, c5)) + scanned(
                6,
                dice_num as int,
                triple_points(6, c6),
            ),
            remaining_dice == scanned(1, dice_num as int, loose_dice(c1)) + scanned(
                2,
                dice_num as int,
                loose_dice(c2),
            ) + scanned(3, dice_num as int, loose_dice(c3)) + scanned(
                4,
                dice_num as int,
                loose_dice(c4),
            ) + scanned(5, dice_num as int, loose_dice(c5)) + scanned(
                6,
                dice_num as int,
                loose_dice(c6),
            ),
        decreases 7 - dice_num,
    {
        let quantity: i32 = quants[dice_num];
        remaining_dice += quantity;
        if quantity >= 3 {
            remaining_dice -= 3;
            score += if dice_num == 1 {
                1000
            } else {
                (dice_num * 100) as i32
            };
            quants[dice_num] = quantity - 3;
        }
        dice_num += 1;
    }

    let (one_score, dice_consumed) = get_score_quantity(&quants, 1, 100);
    remaining_dice -= dice_consumed;
    score += one_score;
    let (five_score, dice_consumed) = get_score_quantity(&quants, 5, 50);
    remaining_dice -= dice_consumed;
    score += five_score;

    (score, remaining_dice)
}

/// Scoring does not look at the order of the dice: two rolls that hold the
/// same dice bring the same points and leave the same number of dice over.
pub proof fn lemma_score_ignores_order(first: Seq<Option<i32>>, second: Seq<Option<i32>>)
    requires
        first.to_multiset() == second.to_multiset(),
    ensures
        roll_points(first) == roll_points(second),
        roll_remaining(first) == roll_remaining(second),
        dice_rolled(first) == dice_rolled(second),
{
    broadcast use vstd::seq_lib::group_to_multiset_ensures;

    assert(first.len() == first.to_multiset().len());
    assert(second.len() == second.to_multiset().len());
}

/// Three dice of one face, and no other die, bring the value of the triple
/// (1000 for 1s, a hundred times the face otherwise) and leave no die over.
pub proof fn lemma_lone_triple(dice: Seq<Option<i32>>, face: i32)
    requires
        valid_roll(dice),
        1 <= face <= 6,
        dice_rolled(dice) == 3,
        face_count(dice, face) == 3,
    ensures
        roll_points(dice) == if face == 1 { 1000int } else { face * 100 },
        roll_remaining(dice) == 0,
{
    lemma_faces_cover_roll(dice);
}

/// What holds of every valid roll: the dice left over are never fewer than
/// none nor more than were rolled, a roll that scores uses up at least one
/// die and brings at least 50 points, a roll that does not score uses up
/// none, and up to five dice bring at most 1200 points.
pub proof fn lemma_roll_bounds(dice: Seq<Option<i32>>)
    requires
        valid_roll(dice),
    ensures
        0 <= roll_remaining(dice) <= dice_rolled(dice),
        roll_points(dice) >= 0,
        roll_points(dice) > 0 ==> roll_points(dice) >= 50 && roll_remaining(dice) < dice_rolled(
            dice,
        ),
        roll_points(dice) == 0 ==> roll_remaining(dice) == dice_rolled(dice),
        dice_rolled(dice) <= 5 ==> roll_points(dice) <= 1200,
{
    lemma_faces_cover_roll(dice);
}

} // verus!
