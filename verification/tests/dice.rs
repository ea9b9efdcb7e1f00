use farkle::game_logic::{die_face, seed_from_millis, Rng};
use rand::{RngCore, SeedableRng};
use rand_xoshiro::Xoshiro256StarStar;

#[test]
fn face_of_raw_bits() {
    assert_eq!(die_face(0), 1);
    assert_eq!(die_face(1), 2);
    assert_eq!(die_face(5), 6);
    assert_eq!(die_face(6), 1);
    assert_eq!(die_face(7), 2);
    assert_eq!(die_face(u32::MAX), 4);
}

#[test]
fn seed_is_the_low_half_of_the_millis() {
    assert_eq!(seed_from_millis(0), 0);
    assert_eq!(seed_from_millis(1_700_000_000_123), 1_700_000_000_123);
    assert_eq!(seed_from_millis(u64::MAX as u128), u64::MAX);
    assert_eq!(seed_from_millis(u64::MAX as u128 + 1), 0);
    assert_eq!(seed_from_millis((5u128 << 64) + 42), 42);
    assert_eq!(seed_from_millis(u128::MAX), u64::MAX);
}

#[test]
fn roll_fills_the_first_places() {
    let mut rng = Rng::seeded(11);
    for dice_num in 0..=5 {
        for _ in 0..200 {
            let dice = rng.roll_dice(dice_num);
            for place in 0..5 {
                if (place as i32) < dice_num {
                    let face = dice[place].unwrap();
                    assert!(1 <= face && face <= 6);
                } else {
                    assert_eq!(dice[place], None);
                }
            }
        }
    }
}

#[test]
fn roll_of_a_negative_number_of_dice_is_empty() {
    let mut rng = Rng::seeded(3);
    assert_eq!(rng.roll_dice(-1), [None; 5]);
    assert_eq!(rng.roll_dice(i32::MIN), [None; 5]);
}

#[test]
fn same_seed_same_dice() {
    let mut first = Rng::seeded(2024);
    let mut second = Rng::seeded(2024);
    for _ in 0..100 {
        assert_eq!(first.roll_dice(5), second.roll_dice(5));
    }
}

#[test]
fn different_seeds_give_different_dice() {
    let mut first = Rng::seeded(1);
    let mut second = Rng::seeded(2);
    let mut same = true;
    for _ in 0..20 {
        if first.roll_dice(5) != second.roll_dice(5) {
            same = false;
        }
    }
    assert!(!same);
}

#[test]
fn dice_come_from_the_generator_in_order() {
    let mut gen = Xoshiro256StarStar::seed_from_u64(77);
    let mut rng = Rng::seeded(77);
    for dice_num in [5, 3, 1, 4, 2, 5] {
        let dice = rng.roll_dice(dice_num);
        for place in 0..dice_num as usize {
            let face = (gen.next_u32() % 6) as i32 + 1;
            assert_eq!(dice[place], Some(face));
        }
    }
}

#[test]
fn every_face_turns_up() {
    let mut rng = Rng::seeded(5);
    let mut seen = [0u32; 7];
    for _ in 0..600 {
        for die in rng.roll_dice(5).iter() {
            seen[die.unwrap() as usize] += 1;
        }
    }
    assert_eq!(seen[0], 0);
    for face in 1..=6 {
        assert!(seen[face] > 350 && seen[face] < 650);
    }
}

#[test]
fn clock_seeds_a_stream() {
    let mut rng = Rng::new().unwrap();
    let dice = rng.roll_dice(5);
    assert!(dice.iter().all(|die| matches!(die, Some(face) if 1 <= *face && *face <= 6)));
}

#[test]
fn roll_moves_the_stream_on_by_its_dice() {
    let mut gen = Xoshiro256StarStar::seed_from_u64(123);
    let mut rng = Rng::seeded(123);
    rng.roll_dice(2);
    rng.roll_dice(0);
    rng.roll_dice(-3);
    rng.roll_dice(4);
    for _ in 0..6 {
        gen.next_u32();
    }
    let face = (gen.next_u32() % 6) as i32 + 1;
    assert_eq!(rng.roll_dice(1)[0], Some(face));
}
