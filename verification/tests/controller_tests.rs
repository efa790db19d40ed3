use rover_snn::brain::Brain;
use rover_snn::controller::decide;
use rover_snn::mover::Mover;
use rover_snn::mover::WorldRect;
use rover_snn::mover::decrement_angle;
use rover_snn::mover::increment_angle;
use rover_snn::rng::RoverRng;

fn world() -> WorldRect {
    WorldRect { left: -200, right: 200, bottom: -200, top: 200 }
}

#[test]
fn rng_is_seed_deterministic() {
    let mut a = RoverRng::new(12345);
    let mut b = RoverRng::new(12345);
    for _ in 0..100 {
        assert_eq!(a.next_u64(), b.next_u64());
    }
}

#[test]
fn rng_bounded_draws_stay_in_range() {
    let mut r = RoverRng::new(7);
    for _ in 0..1000 {
        assert!(r.random_below(10) < 10);
        let j = r.random_jitter();
        assert!(-2 <= j && j <= 2);
    }
}

#[test]
fn decide_is_deterministic_for_equal_seeds() {
    // Two runs with the same brain, the same input vector and the same
    // stream state give the same decision and the same firing counts.
    let mut setup = RoverRng::new(99);
    let brain = Brain::new(&mut setup);
    let inps: Vec<u8> = vec![0, 1, 1, 1, 1, 0, 1, 1];

    let mut rng1 = RoverRng::new(4242);
    let mut rng2 = RoverRng::new(4242);
    let mut v1 = inps.clone();
    let mut v2 = inps.clone();
    let (d1, c1) = decide(&brain, &mut v1, &mut rng1);
    let (d2, c2) = decide(&brain, &mut v2, &mut rng2);
    assert_eq!(d1, d2);
    assert_eq!(c1, c2);
    assert_eq!(v1, v2);
}

#[test]
fn decide_biases_a_silent_input() {
    // A vector silent on the first three bits gets exactly one random
    // bit set before the settling window runs.
    let mut setup = RoverRng::new(5);
    let brain = Brain::new(&mut setup);
    let mut v: Vec<u8> = vec![0; 8];
    let mut rng = RoverRng::new(77);
    let _ = decide(&brain, &mut v, &mut rng);
    let ones: u32 = v.iter().map(|b| *b as u32).sum();
    assert_eq!(ones, 1);
}

#[test]
fn heading_increment_wraps_seven_to_zero() {
    assert_eq!(increment_angle(7), 0);
    assert_eq!(increment_angle(3), 4);
}

#[test]
fn heading_decrement_wraps_zero_to_seven() {
    assert_eq!(decrement_angle(0), 7);
    assert_eq!(decrement_angle(3), 2);
}

#[test]
fn think_turns_at_most_one_step() {
    let mut rng = RoverRng::new(31);
    let mut m = Mover::new(150, 140, &mut rng);
    m.get_sensor_data(world());
    let before = m.angle_index;
    m.think(&mut rng);
    assert_eq!(m.old_angle_index, before);
    let allowed = [before, (before + 1) % 8, (before + 7) % 8];
    assert!(allowed.contains(&m.angle_index));
}

#[test]
fn brain_new_shape() {
    let mut rng = RoverRng::new(11);
    let b = Brain::new(&mut rng);
    assert_eq!(b.fitness, 0);
    assert_eq!(b.xsign.len(), 8);
    assert_eq!(b.iconn.len(), 8);
    assert_eq!(b.nconn.len(), 8);
    for i in 0..8 {
        assert!(b.xsign[i] <= 1);
        for j in 0..8 {
            assert_eq!(b.iconn[i][j], 1);
            assert!(b.nconn[i][j] <= 1);
        }
    }
}

#[test]
fn mutation_flips_exactly_one_polarity_and_one_gate() {
    let mut rng = RoverRng::new(2024);
    let mut m = Mover::new(150, 140, &mut rng);
    let before = m.brain.clone();
    m.mutate(&mut rng);
    let mut xsign_diffs = 0;
    let mut nconn_diffs = 0;
    for i in 0..8 {
        if m.brain.xsign[i] != before.xsign[i] {
            xsign_diffs += 1;
        }
        for j in 0..8 {
            if m.brain.nconn[i][j] != before.nconn[i][j] {
                nconn_diffs += 1;
            }
            assert_eq!(m.brain.iconn[i][j], before.iconn[i][j]);
        }
    }
    assert_eq!(xsign_diffs, 1);
    assert_eq!(nconn_diffs, 1);
    assert_eq!(m.brain.fitness, before.fitness);
}
