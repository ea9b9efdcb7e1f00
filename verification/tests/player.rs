use farkle::game_logic::{score_dice, Rng};
use farkle::player::{Player, Turn, MAX_TURN_GAIN, MIN_SCORE, WINNING_SCORE};

fn roll(faces: &[i32]) -> [Option<i32>; 5] {
    let mut dice = [None; 5];
    for (place, face) in faces.iter().enumerate() {
        dice[place] = Some(*face);
    }
    dice
}

fn fresh_turn() -> Turn {
    Turn { dice_amount: 5, running_total: 0, over: false }
}

#[test]
fn limits_of_the_game() {
    assert_eq!(MIN_SCORE, 500);
    assert_eq!(WINNING_SCORE, 10000);
    assert_eq!(MAX_TURN_GAIN, 11199);
}

#[test]
fn new_player_has_nothing_banked() {
    let player = Player::new(250);
    assert_eq!(player.aggression, 250);
    assert_eq!(player.score, 0);
    assert_eq!(Player::new(-3), Player { score: 0, aggression: -3 });
}

#[test]
fn bust_on_first_roll_ends_the_turn_with_nothing() {
    let player = Player { score: 700, aggression: 100 };
    let mut turn = fresh_turn();
    player.take_roll(false, &mut turn, &roll(&[2, 3, 4, 6, 6]));
    assert_eq!(turn, Turn { dice_amount: 5, running_total: 0, over: true });
    assert_eq!(player.score, 700);
}

#[test]
fn bust_throws_the_points_of_the_turn_away() {
    let player = Player { score: 0, aggression: 400 };
    let mut turn = Turn { dice_amount: 2, running_total: 850, over: false };
    player.take_roll(false, &mut turn, &roll(&[3, 6]));
    assert_eq!(turn, Turn { dice_amount: 2, running_total: 0, over: true });
    let mut turn = Turn { dice_amount: 4, running_total: 850, over: false };
    player.take_roll(false, &mut turn, &roll(&[3, 6]));
    assert_eq!(turn, Turn { dice_amount: 4, running_total: 0, over: true });
}

#[test]
fn bust_ends_a_turn_of_the_final_round_too() {
    let player = Player { score: 9000, aggression: 100 };
    let mut turn = Turn { dice_amount: 3, running_total: 400, over: false };
    player.take_roll(true, &mut turn, &roll(&[2, 4, 6]));
    assert_eq!(turn, Turn { dice_amount: 3, running_total: 0, over: true });
}

#[test]
fn scoring_roll_below_the_aggression_goes_on() {
    let player = Player { score: 0, aggression: 300 };
    let mut turn = fresh_turn();
    player.take_roll(false, &mut turn, &roll(&[1, 2, 3, 4, 6]));
    assert_eq!(turn, Turn { dice_amount: 4, running_total: 100, over: false });
    player.take_roll(false, &mut turn, &roll(&[5, 5, 2, 3]));
    assert_eq!(turn, Turn { dice_amount: 2, running_total: 200, over: false });
}

#[test]
fn hot_dice_give_five_dice_again() {
    let player = Player { score: 0, aggression: 300 };
    let mut turn = fresh_turn();
    player.take_roll(false, &mut turn, &roll(&[1, 1, 1, 5, 5]));
    assert_eq!(turn, Turn { dice_amount: 5, running_total: 1100, over: false });
    let mut turn = Turn { dice_amount: 1, running_total: 250, over: false };
    player.take_roll(false, &mut turn, &roll(&[5]));
    assert_eq!(turn, Turn { dice_amount: 5, running_total: 300, over: false });
}

#[test]
fn turn_stops_at_aggression_times_dice() {
    let player = Player { score: 0, aggression: 200 };
    let mut turn = fresh_turn();
    player.take_roll(false, &mut turn, &roll(&[1, 1, 1, 5, 5]));
    assert_eq!(turn, Turn { dice_amount: 5, running_total: 1100, over: true });

    let player = Player { score: 600, aggression: 100 };
    let mut turn = fresh_turn();
    player.take_roll(false, &mut turn, &roll(&[1, 1, 5, 3, 4]));
    assert_eq!(turn, Turn { dice_amount: 2, running_total: 250, over: true });
    let mut turn = fresh_turn();
    player.take_roll(false, &mut turn, &roll(&[1, 5, 2, 3, 4]));
    assert_eq!(turn, Turn { dice_amount: 3, running_total: 150, over: false });
    let mut turn = Turn { dice_amount: 3, running_total: 150, over: false };
    player.take_roll(false, &mut turn, &roll(&[1, 5, 2]));
    assert_eq!(turn, Turn { dice_amount: 1, running_total: 300, over: true });
}

#[test]
fn turn_does_not_stop_below_the_floor() {
    let mut turn = fresh_turn();
    Player { score: 0, aggression: 10 }.take_roll(false, &mut turn, &roll(&[5, 2, 3, 4, 6]));
    assert_eq!(turn, Turn { dice_amount: 4, running_total: 50, over: false });
    let mut turn = fresh_turn();
    Player { score: 449, aggression: 10 }.take_roll(false, &mut turn, &roll(&[5, 2, 3, 4, 6]));
    assert_eq!(turn, Turn { dice_amount: 4, running_total: 50, over: false });
    let mut turn = fresh_turn();
    Player { score: 450, aggression: 10 }.take_roll(false, &mut turn, &roll(&[5, 2, 3, 4, 6]));
    assert_eq!(turn, Turn { dice_amount: 4, running_total: 50, over: true });
}

#[test]
fn final_round_never_stops_of_its_own_accord() {
    let player = Player { score: 450, aggression: 10 };
    let mut turn = fresh_turn();
    player.take_roll(true, &mut turn, &roll(&[5, 2, 3, 4, 6]));
    assert_eq!(turn, Turn { dice_amount: 4, running_total: 50, over: false });
    let mut turn = Turn { dice_amount: 5, running_total: 5000, over: false };
    player.take_roll(true, &mut turn, &roll(&[1, 1, 1, 1, 1]));
    assert_eq!(turn, Turn { dice_amount: 5, running_total: 6200, over: false });
}

#[test]
fn turn_ends_at_the_winning_score() {
    let player = Player { score: 0, aggression: 5000 };
    let mut turn = Turn { dice_amount: 5, running_total: 9000, over: false };
    player.take_roll(false, &mut turn, &roll(&[1, 1, 1, 2, 3]));
    assert_eq!(turn, Turn { dice_amount: 2, running_total: 10000, over: true });
    let mut turn = Turn { dice_amount: 5, running_total: 9000, over: false };
    player.take_roll(true, &mut turn, &roll(&[1, 1, 1, 2, 3]));
    assert_eq!(turn, Turn { dice_amount: 2, running_total: 10000, over: true });
}

#[test]
fn points_of_the_roll_count_twice_against_the_winning_score() {
    let player = Player { score: 0, aggression: 5000 };
    let mut turn = Turn { dice_amount: 5, running_total: 8900, over: false };
    player.take_roll(true, &mut turn, &roll(&[5, 5, 5, 5, 2]));
    assert_eq!(turn, Turn { dice_amount: 1, running_total: 9450, over: true });
    let mut turn = Turn { dice_amount: 5, running_total: 8850, over: false };
    player.take_roll(true, &mut turn, &roll(&[5, 5, 5, 5, 2]));
    assert_eq!(turn, Turn { dice_amount: 1, running_total: 9400, over: false });
}

#[test]
fn negative_aggression_stops_as_soon_as_the_floor_is_met() {
    let player = Player { score: 500, aggression: -5 };
    let mut turn = fresh_turn();
    player.take_roll(false, &mut turn, &roll(&[5, 2, 3, 4, 6]));
    assert_eq!(turn, Turn { dice_amount: 4, running_total: 50, over: true });
}

#[test]
fn huge_aggression_never_stops_of_its_own_accord() {
    let player = Player { score: 9000, aggression: i32::MAX };
    let mut turn = Turn { dice_amount: 5, running_total: 7000, over: false };
    player.take_roll(false, &mut turn, &roll(&[1, 1, 1, 1, 1]));
    assert_eq!(turn, Turn { dice_amount: 5, running_total: 8200, over: false });
    let player = Player { score: 9000, aggression: i32::MIN };
    let mut turn = Turn { dice_amount: 5, running_total: 100, over: false };
    player.take_roll(false, &mut turn, &roll(&[1, 2, 2, 3, 3]));
    assert_eq!(turn, Turn { dice_amount: 4, running_total: 200, over: true });
}

#[test]
fn play_turn_never_lowers_the_score() {
    for seed in 0..300u64 {
        let mut rng = Rng::seeded(seed);
        let mut player = Player { score: 1200, aggression: 150 };
        for _ in 0..5 {
            let before = player.score;
            player.play_turn(seed % 2 == 0, &mut rng);
            assert!(player.score >= before);
            assert!(player.score <= before + MAX_TURN_GAIN);
            assert_eq!(player.aggression, 150);
        }
    }
}

#[test]
fn play_turn_banks_nothing_or_at_least_fifty() {
    for seed in 0..300u64 {
        let mut rng = Rng::seeded(seed);
        let mut player = Player::new(100);
        player.play_turn(false, &mut rng);
        assert!(player.score == 0 || player.score >= MIN_SCORE);
    }
}

#[test]
fn play_turn_that_busts_on_its_first_roll_leaves_the_score() {
    let mut busts = 0;
    for seed in 0..400u64 {
        let first_roll = Rng::seeded(seed).roll_dice(5);
        if score_dice(&first_roll).0 == 0 {
            busts += 1;
            for is_final in [false, true] {
                let mut rng = Rng::seeded(seed);
                let mut player = Player { score: 4321, aggression: 120 };
                player.play_turn(is_final, &mut rng);
                assert_eq!(player, Player { score: 4321, aggression: 120 });
            }
        }
    }
    assert!(busts > 0);
}

#[test]
fn play_turn_replays_with_the_same_seed() {
    for seed in [9u64, 99, 999] {
        let mut first = Player { score: 300, aggression: 200 };
        let mut second = Player { score: 300, aggression: 200 };
        first.play_turn(false, &mut Rng::seeded(seed));
        second.play_turn(false, &mut Rng::seeded(seed));
        assert_eq!(first, second);
    }
}

#[test]
fn play_turn_follows_the_rolls_one_by_one() {
    for seed in 0..200u64 {
        for is_final in [false, true] {
            let mut player = Player { score: 800, aggression: 180 };
            player.play_turn(is_final, &mut Rng::seeded(seed));

            let model = Player { score: 800, aggression: 180 };
            let mut rng = Rng::seeded(seed);
            let mut turn = Turn { dice_amount: 5, running_total: 0, over: false };
            while !turn.over {
                let dice = rng.roll_dice(turn.dice_amount);
                model.take_roll(is_final, &mut turn, &dice);
            }
            assert_eq!(player.score, 800 + turn.running_total);
        }
    }
}

#[test]
fn play_turn_leaves_the_stream_after_its_last_roll() {
    for seed in 0..100u64 {
        let mut rng = Rng::seeded(seed);
        let mut player = Player { score: 800, aggression: 180 };
        player.play_turn(false, &mut rng);

        let model = Player { score: 800, aggression: 180 };
        let mut model_rng = Rng::seeded(seed);
        let mut turn = Turn { dice_amount: 5, running_total: 0, over: false };
        while !turn.over {
            let dice = model_rng.roll_dice(turn.dice_amount);
            model.take_roll(false, &mut turn, &dice);
        }
        assert_eq!(rng.roll_dice(5), model_rng.roll_dice(5));
    }
}
