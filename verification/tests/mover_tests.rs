use rover_snn::mover::Mover;
use rover_snn::mover::WorldRect;
use rover_snn::rng::RoverRng;

fn world() -> WorldRect {
    WorldRect { left: -200, right: 200, bottom: -200, top: 200 }
}

fn fresh_mover(seed: u64) -> Mover {
    let mut rng = RoverRng::new(seed);
    Mover::new(150, 140, &mut rng)
}

#[test]
fn reward_accumulates_over_held_heading() {
    // Five motion updates with the heading held give fitness 5.
    let mut m = fresh_mover(1);
    m.angle_index = 2;
    m.old_angle_index = 2;
    m.brain.fitness = 0;
    for _ in 0..5 {
        m.update_mover();
    }
    assert_eq!(m.brain.fitness, 5);
}

#[test]
fn reward_skipped_on_a_turn() {
    let mut m = fresh_mover(2);
    m.angle_index = 2;
    m.old_angle_index = 2;
    m.brain.fitness = 0;
    m.update_mover();
    assert_eq!(m.brain.fitness, 1);
    m.old_angle_index = 3;
    m.update_mover();
    assert_eq!(m.brain.fitness, 1);
}

#[test]
fn motion_follows_the_compass() {
    let mut m = fresh_mover(3);
    m.position = (0, 100);
    m.angle_index = 1;
    m.old_angle_index = 1;
    m.update_mover();
    assert_eq!(m.position, (1, 101));
    assert_eq!(m.velocity_x, 1);
    assert_eq!(m.velocity_y, 1);
}

#[test]
fn check_dead_clamps_to_the_wall() {
    let mut m = fresh_mover(4);
    m.position = (250, 100);
    m.isdead = 0;
    m.check_dead(world());
    assert_eq!(m.position, (200, 100));
    assert_eq!(m.isdead, 1);
}

#[test]
fn check_dead_dies_on_the_rock() {
    let mut m = fresh_mover(5);
    m.position = (0, 0);
    m.isdead = 0;
    m.check_dead(world());
    assert_eq!(m.position, (0, 0));
    assert_eq!(m.isdead, 1);
}

#[test]
fn check_dead_leaves_a_live_rover_alone() {
    let mut m = fresh_mover(6);
    m.position = (100, 100);
    m.isdead = 0;
    m.check_dead(world());
    assert_eq!(m.position, (100, 100));
    assert_eq!(m.isdead, 0);
}

#[test]
fn check_collisions_flags_walls_and_rock() {
    let mut m = fresh_mover(7);
    assert_eq!(m.check_collisions(0, 0, world()), 1);
    assert_eq!(m.check_collisions(50, 50, world()), 1);
    assert_eq!(m.check_collisions(51, 51, world()), 0);
    assert_eq!(m.check_collisions(201, 0, world()), 1);
    assert_eq!(m.check_collisions(0, -201, world()), 1);
    assert_eq!(m.check_collisions(100, 100, world()), 0);
}

#[test]
fn sensor_rays_stop_on_the_wall() {
    let mut m = fresh_mover(8);
    m.position = (150, 140);
    m.angle_index = 0;
    m.get_sensor_data(world());
    // Sensor 1 looks straight east and meets the wall one step past it.
    assert_eq!(m.sensor_data[1], (201, 140));
    // Sensors 0 and 2 look diagonally and leave the sensor radius
    // after 43 steps, before reaching the wall.
    assert_eq!(m.sensor_data[0], (193, 183));
    assert_eq!(m.sensor_data[2], (193, 97));
}

#[test]
fn sensor_rays_run_out_in_the_open() {
    let mut m = fresh_mover(9);
    m.position = (100, 100);
    m.angle_index = 2;
    m.get_sensor_data(world());
    // Straight north from open space: the full sensor length of steps.
    assert_eq!(m.sensor_data[1], (100, 160));
    // Diagonal rays leave the sensor radius after 43 steps.
    assert_eq!(m.sensor_data[0], (57, 143));
    assert_eq!(m.sensor_data[2], (143, 143));
}

#[test]
fn encoded_vector_darkens_with_distance() {
    let mut m = fresh_mover(10);
    m.position = (100, 100);
    m.angle_index = 2;
    m.get_sensor_data(world());
    m.build_sensor_data_vector();
    // All endpoints are at or past the sensor length: every bit dark.
    assert_eq!(m.sensor_data_vector, vec![0; 8]);
    // Pretend the straight sensor touched a wall 10 units north.
    m.sensor_data[1] = (100, 110);
    m.build_sensor_data_vector();
    assert_eq!(m.sensor_data_vector, vec![0, 0, 0, 1, 1, 0, 0, 0]);
}

#[test]
fn reset_restores_the_start_pose() {
    let mut rng = RoverRng::new(11);
    let mut m = Mover::new(150, 140, &mut rng);
    m.brain.fitness = 44;
    m.isdead = 1;
    m.position = (7, 7);
    m.reset_mover(400, 400, &mut rng);
    assert_eq!(m.brain.fitness, 0);
    assert_eq!(m.isdead, 0);
    assert_eq!(m.position, (150, 140));
    assert_eq!(m.multiplier, 1);
    assert!(m.angle_index < 8);
}

#[test]
fn new_mover_starts_clean() {
    let m = fresh_mover(12);
    assert_eq!(m.position, (150, 140));
    assert_eq!(m.isdead, 0);
    assert_eq!(m.brains.len(), 10);
    assert!(m.brain_index < 10);
    assert!(m.angle_index < 8);
    assert_eq!(m.sensor_data_vector, vec![0; 8]);
    assert_eq!(m.sensor_data.len(), 3);
}
