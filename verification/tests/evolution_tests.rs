use rover_snn::evolution::Model;
use rover_snn::evolution::select_index;
use rover_snn::evolution::sort_brains;
use rover_snn::evolution::sum_fitness;
use rover_snn::mover::WorldRect;
use rover_snn::rng::RoverRng;

fn world() -> WorldRect {
    WorldRect { left: -200, right: 200, bottom: -200, top: 200 }
}

fn fresh_model(seed: u64) -> Model {
    let mut rng = RoverRng::new(seed);
    Model::new(400, 400, &mut rng)
}

#[test]
fn sort_orders_by_fitness_descending() {
    let mut m = fresh_model(1);
    let fits = [3, 1, 4, 1, 5, 9, 2, 6, 5, 3];
    for (i, f) in fits.iter().enumerate() {
        m.mover.brains[i].fitness = *f;
    }
    sort_brains(&mut m.mover.brains);
    let sorted: Vec<u32> = m.mover.brains.iter().map(|b| b.fitness).collect();
    assert_eq!(sorted, vec![9, 6, 5, 5, 4, 3, 3, 2, 1, 1]);
}

#[test]
fn sum_fitness_is_exact() {
    let mut m = fresh_model(2);
    for i in 0..10 {
        m.mover.brains[i].fitness = (i as u32) * 10;
    }
    assert_eq!(sum_fitness(&m.mover.brains), 450);
}

#[test]
fn selection_walk_picks_exact_slots() {
    let mut m = fresh_model(3);
    let fits = [10, 5, 3, 2, 0, 0, 0, 0, 0, 0];
    for (i, f) in fits.iter().enumerate() {
        m.mover.brains[i].fitness = *f;
    }
    // The total is 20; a draw g stands for the fraction g / 2^64.
    // Slot 0 owns [0, 0.5), slot 1 [0.5, 0.75), slot 2 [0.75, 0.9),
    // slot 3 [0.9, 1.0); the zero-fitness slots own nothing.
    assert_eq!(select_index(&m.mover.brains, 0), 0);
    assert_eq!(select_index(&m.mover.brains, (1u64 << 63) - 1), 0);
    assert_eq!(select_index(&m.mover.brains, 1u64 << 63), 1);
    assert_eq!(select_index(&m.mover.brains, u64::MAX), 3);
}

#[test]
fn selection_frequencies_match_fitness_shares() {
    let mut m = fresh_model(4);
    let fits = [10, 5, 3, 2, 0, 0, 0, 0, 0, 0];
    for (i, f) in fits.iter().enumerate() {
        m.mover.brains[i].fitness = *f;
    }
    let mut rng = RoverRng::new(20240601);
    let draws = 100_000usize;
    let mut counts = [0usize; 10];
    for _ in 0..draws {
        let g = rng.next_u64();
        counts[select_index(&m.mover.brains, g)] += 1;
    }
    let expect = [0.50, 0.25, 0.15, 0.10];
    for k in 0..4 {
        let freq = counts[k] as f64 / draws as f64;
        assert!(
            (freq - expect[k]).abs() < 0.01,
            "slot {} frequency {} expected {}",
            k,
            freq,
            expect[k]
        );
    }
    for k in 4..10 {
        assert_eq!(counts[k], 0);
    }
}

#[test]
fn elitism_keeps_a_strong_finisher() {
    let mut m = fresh_model(5);
    m.num_epochs = 10;
    for i in 0..10 {
        m.mover.brains[i].fitness = (i as u32) + 1;
    }
    m.mover.brain.fitness = 15;
    let active = m.mover.brain.clone();
    let mut rng = RoverRng::new(9);
    let (terminal, _) = m.generation_transition(&mut rng);
    assert_eq!(terminal, 15);
    // The worst slot held fitness 1; the finisher at 15 displaces it.
    let fits: Vec<u32> = m.mover.brains.iter().map(|b| b.fitness).collect();
    assert!(!fits.contains(&1));
    let kept = m
        .mover
        .brains
        .iter()
        .any(|b| b.fitness == 15 && b.xsign == active.xsign && b.nconn == active.nconn);
    assert!(kept);
}

#[test]
fn weak_finisher_is_discarded() {
    let mut m = fresh_model(6);
    m.num_epochs = 10;
    for i in 0..10 {
        m.mover.brains[i].fitness = (i as u32) + 10;
    }
    m.mover.brain.fitness = 3;
    let mut rng = RoverRng::new(10);
    let _ = m.generation_transition(&mut rng);
    let fits: Vec<u32> = m.mover.brains.iter().map(|b| b.fitness).collect();
    assert!(!fits.contains(&3));
    assert!(fits.contains(&10));
}

#[test]
fn bootstrap_fills_slots_in_order() {
    let mut m = fresh_model(7);
    m.num_epochs = 4;
    m.mover.brain.fitness = 12;
    let slot = m.mover.brain_index;
    let finished = m.mover.brain.clone();
    let mut rng = RoverRng::new(11);
    let _ = m.generation_transition(&mut rng);
    assert_eq!(m.num_epochs, 5);
    assert_eq!(m.mover.brain_index, 4);
    assert_eq!(m.mover.brains[slot].fitness, 12);
    assert_eq!(m.mover.brains[slot].xsign, finished.xsign);
    assert_eq!(m.mover.brain.fitness, 0);
    assert_eq!(m.loop_knt, 0);
    assert_eq!(m.mover.isdead, 0);
}

#[test]
fn all_zero_fitness_falls_back_to_uniform_selection() {
    let mut m = fresh_model(8);
    m.num_epochs = 10;
    for i in 0..10 {
        m.mover.brains[i].fitness = 0;
    }
    m.mover.brain.fitness = 0;
    let mut rng = RoverRng::new(12);
    let _ = m.generation_transition(&mut rng);
    assert!(m.mover.brain_index < 10);
    assert_eq!(m.num_epochs, 11);
}

#[test]
fn live_tick_counts_and_rewards() {
    let mut m = fresh_model(13);
    let mut rng = RoverRng::new(14);
    let fit_before = m.mover.brain.fitness;
    let boundary = m.tick(world(), &mut rng);
    assert_eq!(boundary, None);
    assert_eq!(m.loop_knt, 1);
    assert_eq!(m.num_epochs, 0);
    let gained = m.mover.brain.fitness - fit_before;
    assert!(gained <= 1);
    let held = m.mover.angle_index == m.mover.old_angle_index;
    assert_eq!(gained == 1, held);
}

#[test]
fn death_tick_runs_a_generation() {
    let mut m = fresh_model(15);
    m.mover.position = (0, 0);
    m.mover.brain.fitness = 7;
    let mut rng = RoverRng::new(16);
    let boundary = m.tick(world(), &mut rng);
    assert_eq!(boundary, Some(7));
    assert_eq!(m.num_epochs, 1);
    assert_eq!(m.loop_knt, 0);
    assert_eq!(m.mover.isdead, 0);
    assert_eq!(m.mover.brain.fitness, 0);
    assert_eq!(m.mover.position, (150, 140));
}

#[test]
fn whole_runs_replay_from_the_seed() {
    let mut rng1 = RoverRng::new(77);
    let mut rng2 = RoverRng::new(77);
    let mut a = Model::new(400, 400, &mut rng1);
    let mut b = Model::new(400, 400, &mut rng2);
    for _ in 0..3000 {
        let ra = a.tick(world(), &mut rng1);
        let rb = b.tick(world(), &mut rng2);
        assert_eq!(ra, rb);
    }
    assert_eq!(a.num_epochs, b.num_epochs);
    assert_eq!(a.loop_knt, b.loop_knt);
    assert_eq!(a.mover.position, b.mover.position);
    assert_eq!(a.mover.brain.fitness, b.mover.brain.fitness);
    assert_eq!(a.mover.angle_index, b.mover.angle_index);
    let fa: Vec<u32> = a.mover.brains.iter().map(|x| x.fitness).collect();
    let fb: Vec<u32> = b.mover.brains.iter().map(|x| x.fitness).collect();
    assert_eq!(fa, fb);
}

#[test]
fn transition_draws_a_fresh_heading_with_matching_velocity() {
    let dx = [1i32, 1, 0, -1, -1, -1, 0, 1];
    let dy = [0i32, 1, 1, 1, 0, -1, -1, -1];
    for seed in 0..20u64 {
        let mut m = fresh_model(seed);
        m.num_epochs = 3;
        let mut rng = RoverRng::new(seed + 100);
        let _ = m.generation_transition(&mut rng);
        assert!(m.mover.angle_index < 8);
        assert_eq!(m.mover.velocity_x, dx[m.mover.angle_index]);
        assert_eq!(m.mover.velocity_y, dy[m.mover.angle_index]);
        assert_eq!(m.mover.multiplier, 1);
    }
}

#[test]
fn model_new_starts_at_the_pose() {
    let m = fresh_model(17);
    assert_eq!(m.loop_knt, 0);
    assert_eq!(m.num_epochs, 0);
    assert_eq!(m.mover.position, (150, 140));
    assert_eq!(m.mover.brain.fitness, 0);
}
