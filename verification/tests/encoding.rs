use rover_snn::sensor::encode;
use rover_snn::sensor::encode_dist_sq;
use rover_snn::sensor::level_from_dist_sq;
use rover_snn::sensor::level_from_proximity;

#[test]
fn it_works() {
    assert_eq!(2 + 2, 4);
}

#[test]
fn lib_it_works() {
    assert_eq!(2 + 2, 4);
}

#[test]
fn encode_boundary_p80() {
    // p = 0.80 on every sensor: every bit of every group lights up.
    let v = encode(&vec![80, 80, 80]);
    assert_eq!(v, vec![1, 1, 1, 1, 1, 1, 1, 1]);
}

#[test]
fn encode_boundary_p79() {
    // Just under 0.80: bits 0 and 5 stay dark.
    let v = encode(&vec![79, 79, 79]);
    assert_eq!(v, vec![0, 1, 1, 1, 1, 0, 1, 1]);
}

#[test]
fn encode_boundary_p50() {
    let v = encode(&vec![50, 50, 50]);
    assert_eq!(v, vec![0, 1, 1, 1, 1, 0, 1, 1]);
}

#[test]
fn encode_boundary_p49() {
    // Just under 0.50: only the last bit of each group stays lit.
    let v = encode(&vec![49, 49, 49]);
    assert_eq!(v, vec![0, 0, 1, 0, 1, 0, 0, 1]);
}

#[test]
fn encode_boundary_p25() {
    let v = encode(&vec![25, 25, 25]);
    assert_eq!(v, vec![0, 0, 1, 0, 1, 0, 0, 1]);
}

#[test]
fn encode_boundary_p24() {
    // Below 0.25 every group stays dark.
    let v = encode(&vec![24, 24, 24]);
    assert_eq!(v, vec![0, 0, 0, 0, 0, 0, 0, 0]);
}

#[test]
fn encode_sensors_are_independent() {
    let v = encode(&vec![80, 49, 24]);
    assert_eq!(v, vec![1, 1, 1, 0, 1, 0, 0, 0]);
}

#[test]
fn proximity_levels() {
    assert_eq!(level_from_proximity(100), 3);
    assert_eq!(level_from_proximity(80), 3);
    assert_eq!(level_from_proximity(79), 2);
    assert_eq!(level_from_proximity(50), 2);
    assert_eq!(level_from_proximity(49), 1);
    assert_eq!(level_from_proximity(25), 1);
    assert_eq!(level_from_proximity(24), 0);
    assert_eq!(level_from_proximity(0), 0);
}

#[test]
fn distance_levels_match_proximity_thresholds() {
    // Distances 12, 30 and 45 are the p = 0.80, 0.50 and 0.25 edges of
    // a length-60 sensor.
    assert_eq!(level_from_dist_sq(12 * 12), 3);
    assert_eq!(level_from_dist_sq(13 * 13), 2);
    assert_eq!(level_from_dist_sq(30 * 30), 2);
    assert_eq!(level_from_dist_sq(31 * 31), 1);
    assert_eq!(level_from_dist_sq(45 * 45), 1);
    assert_eq!(level_from_dist_sq(46 * 46), 0);
    assert_eq!(level_from_dist_sq(61 * 61), 0);
}

#[test]
fn encode_dist_sq_touching() {
    let v = encode_dist_sq(&vec![100, 100, 100]);
    assert_eq!(v, vec![1, 1, 1, 1, 1, 1, 1, 1]);
}
