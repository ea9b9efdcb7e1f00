use farkle::game::{Game, TURN_LIMIT};
use farkle::game_logic::Rng;
use farkle::player::{Player, MAX_TURN_GAIN, WINNING_SCORE};

#[test]
fn turn_limit_is_out_of_reach() {
    assert_eq!(TURN_LIMIT, u64::MAX);
}

#[test]
fn new_game_seats_the_roster_in_order() {
    let mut rng = Rng::seeded(1);
    let game = Game::new_game(&vec![90, 100, 250], &mut rng);
    assert_eq!(
        game.players,
        vec![
            Player { score: 0, aggression: 90 },
            Player { score: 0, aggression: 100 },
            Player { score: 0, aggression: 250 },
        ]
    );
    assert_eq!(game.winner, None);
    assert_eq!(game.lead, None);
}

#[test]
fn new_game_of_an_empty_roster_has_no_players() {
    let mut rng = Rng::seeded(1);
    let game = Game::new_game(&vec![], &mut rng);
    assert!(game.players.is_empty());
    assert_eq!(game.winner, None);
    assert_eq!(game.lead, None);
}

#[test]
fn first_player_above_the_winning_score_becomes_the_lead() {
    let mut rng = Rng::seeded(4);
    let players =
        vec![Player { score: 500, aggression: 100 }, Player { score: 10001, aggression: 100 }];
    let mut game = Game { players, winner: None, lead: None, rng: &mut rng };
    game.take_turn(1);
    assert_eq!(game.lead, Some(1));
    assert_eq!(game.winner, None);
    assert!(game.players[1].score >= 10001);
    assert_eq!(game.players[0], Player { score: 500, aggression: 100 });
}

#[test]
fn turn_of_the_lead_declares_no_winner() {
    let mut rng = Rng::seeded(4);
    let players =
        vec![Player { score: 10500, aggression: 100 }, Player { score: 20000, aggression: 100 }];
    let mut game = Game { players, winner: None, lead: Some(0), rng: &mut rng };
    game.take_turn(0);
    assert_eq!(game.lead, Some(0));
    assert_eq!(game.winner, None);
    assert!(game.players[0].score >= 10500);
}

#[test]
fn another_player_above_the_winning_score_does_not_take_the_lead() {
    let mut rng = Rng::seeded(4);
    let players =
        vec![Player { score: 10500, aggression: 100 }, Player { score: 20000, aggression: 100 }];
    let mut game = Game { players, winner: None, lead: Some(0), rng: &mut rng };
    game.take_turn(1);
    assert_eq!(game.lead, Some(0));
    assert_eq!(game.winner, None);
    assert!(game.players[1].score >= 20000);
}

#[test]
fn turn_below_the_winning_score_changes_no_state() {
    for seed in 0..100u64 {
        let mut rng = Rng::seeded(seed);
        let players =
            vec![Player { score: 0, aggression: 100 }, Player { score: 0, aggression: 300 }];
        let mut game = Game { players, winner: None, lead: None, rng: &mut rng };
        game.take_turn(0);
        let score = game.players[0].score;
        assert!(0 <= score && score <= MAX_TURN_GAIN);
        assert_eq!(game.lead, if score > WINNING_SCORE { Some(0) } else { None });
        assert_eq!(game.winner, None);
        assert_eq!(game.players[1], Player { score: 0, aggression: 300 });
    }
}

#[test]
fn score_at_the_winning_score_is_not_above_it() {
    let first_roll_busts = (0..500u64)
        .find(|seed| {
            let dice = Rng::seeded(*seed).roll_dice(5);
            farkle::game_logic::score_dice(&dice).0 == 0
        })
        .unwrap();
    let mut rng = Rng::seeded(first_roll_busts);
    let players = vec![Player { score: 10000, aggression: 100 }];
    let mut game = Game { players, winner: None, lead: None, rng: &mut rng };
    game.take_turn(0);
    assert_eq!(game.players[0].score, 10000);
    assert_eq!(game.lead, None);
    assert_eq!(game.winner, None);
}

#[test]
fn single_player_wins_their_own_round() {
    for seed in 0..20u64 {
        let mut rng = Rng::seeded(seed);
        let mut game = Game::new_game(&vec![150], &mut rng);
        game.play();
        assert_eq!(game.winner, Some(0));
        assert_eq!(game.lead, Some(0));
        assert!(game.players[0].score > WINNING_SCORE);
        assert_eq!(game.players[0].aggression, 150);
    }
}

#[test]
fn winner_is_the_first_to_cross() {
    for seed in 0..20u64 {
        let mut rng = Rng::seeded(seed);
        let roster = vec![90, 150, 300, 1000];
        let mut game = Game::new_game(&roster, &mut rng);
        game.play();
        let winner = game.winner.unwrap();
        assert_eq!(game.lead, Some(winner));
        assert!(0 <= winner && winner < 4);
        assert!(game.players[winner as usize].score > WINNING_SCORE);
        for (place, player) in game.players.iter().enumerate() {
            assert_eq!(player.aggression, roster[place]);
            assert!(player.score >= 0);
            assert!(player.score <= WINNING_SCORE + MAX_TURN_GAIN);
        }
    }
}

#[test]
fn round_replays_with_the_same_seed() {
    let roster = vec![100, 200, 400];
    let mut first_rng = Rng::seeded(31);
    let mut first = Game::new_game(&roster, &mut first_rng);
    first.play();
    let mut second_rng = Rng::seeded(31);
    let mut second = Game::new_game(&roster, &mut second_rng);
    second.play();
    assert_eq!(first.winner, second.winner);
    assert_eq!(first.players, second.players);
}

#[test]
fn round_follows_the_turns_one_by_one() {
    let roster = vec![100, 200, 400];
    for seed in 0..10u64 {
        let mut rng = Rng::seeded(seed);
        let mut game = Game::new_game(&roster, &mut rng);
        game.play();
        let (winner, lead, players) = (game.winner, game.lead, game.players.clone());

        let mut model_rng = Rng::seeded(seed);
        let mut model = Game::new_game(&roster, &mut model_rng);
        let mut place = 0;
        while model.lead != Some(place as i32) {
            model.take_turn(place);
            place = (place + 1) % 3;
        }
        assert_eq!(winner, Some(place as i32));
        assert_eq!(lead, model.lead);
        assert_eq!(players, model.players);
        assert_eq!(rng.roll_dice(5), model_rng.roll_dice(5));
    }
}

#[test]
fn lead_takes_no_turn_after_crossing() {
    for seed in 0..10u64 {
        let mut rng = Rng::seeded(seed);
        let mut game = Game::new_game(&vec![150], &mut rng);
        game.play();
        let score = game.players[0].score;

        let mut model_rng = Rng::seeded(seed);
        let mut player = Player::new(150);
        while player.score <= WINNING_SCORE {
            player.play_turn(false, &mut model_rng);
        }
        assert_eq!(score, player.score);
        assert_eq!(rng.roll_dice(5), model_rng.roll_dice(5));
    }
}

#[test]
fn every_other_player_gets_one_more_turn() {
    let roster = vec![100, 200, 400, 150];
    for seed in 0..10u64 {
        let mut rng = Rng::seeded(seed);
        let mut game = Game::new_game(&roster, &mut rng);
        game.play();
        let players = game.players.clone();

        let mut model_rng = Rng::seeded(seed);
        let mut model = Game::new_game(&roster, &mut model_rng);
        let mut place = 0;
        let mut last_turns = 0;
        while model.lead != Some(place as i32) {
            let in_final_round = model.lead.is_some();
            model.take_turn(place);
            if in_final_round {
                last_turns += 1;
            }
            place = (place + 1) % 4;
        }
        assert_eq!(last_turns, 3);
        assert_eq!(players, model.players);
    }
}

#[test]
fn new_game_rolls_no_die() {
    let mut rng = Rng::seeded(12);
    {
        let game = Game::new_game(&vec![90, 100], &mut rng);
        assert_eq!(game.players.len(), 2);
    }
    assert_eq!(rng.roll_dice(5), Rng::seeded(12).roll_dice(5));
}
