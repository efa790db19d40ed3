//! Sensed-distance encoding.
//!
//! Three sensors map onto non-overlapping bit groups of the eight-bit
//! input vector: sensor 0 owns bits 0..=2, sensor 1 bits 3..=4, sensor 2
//! bits 5..=7.  A sensor's proximity (1 at touch, 0 at full reach) falls
//! into one of four graded levels, and each level activates a fixed,
//! hand-tuned sparse pattern inside the group.  The patterns nest: every
//! bit has a minimum level at which it lights up.
//!
//! Proximity is measured in hundredths; the integer squared distance of
//! an endpoint gives the same levels, because for a sensor of length 60
//! the proximity thresholds 0.80, 0.50 and 0.25 sit exactly at the
//! distances 12, 30 and 45.

use vstd::prelude::*;

use crate::NUM_NEURONS;
use crate::NUM_SENSORS;
use crate::brain::bits_wf;

verus! {

/// The sensor that owns input bit `b`.
pub open spec fn sensor_of_bit(b: int) -> int {
    if b <= 2 {
        0
    } else if b <= 4 {
        1
    } else {
        2
    }
}

/// The least proximity level at which bit `b` lights up.
pub open spec fn level_required(b: int) -> int {
    if b == 0 || b == 5 {
        3
    } else if b == 1 || b == 3 || b == 6 {
        2
    } else {
        1
    }
}

/// The graded level of a proximity given in hundredths: 3 at `p >= 0.80`,
/// 2 at `0.50 <= p < 0.80`, 1 at `0.25 <= p < 0.50`, else 0.
pub open spec fn level_of_proximity(p: int) -> int {
    if p >= 80 {
        3
    } else if p >= 50 {
        2
    } else if p >= 25 {
        1
    } else {
        0
    }
}

/// The same graded level from the squared distance of an endpoint: the
/// proximity thresholds of a length-60 sensor sit at distances 12, 30
/// and 45, whose squares are 144, 900 and 2025.  A distance beyond the
/// sensor's reach lands at level 0, which also covers the clamp of raw
/// distances to the sensor length.
pub open spec fn level_of_dist_sq(d2: int) -> int {
    if d2 <= 144 {
        3
    } else if d2 <= 900 {
        2
    } else if d2 <= 2025 {
        1
    } else {
        0
    }
}

/// Bit `b` of the encoded vector, given its sensor's level.
pub open spec fn bit_of_level(level: int, b: int) -> u8 {
    if level >= level_required(b) {
        1u8
    } else {
        0u8
    }
}

/// The squared Euclidean distance between two points.
pub open spec fn dist_sq(a: (int, int), b: (int, int)) -> int {
    (a.0 - b.0) * (a.0 - b.0) + (a.1 - b.1) * (a.1 - b.1)
}

/// The full input vector encoded from one squared distance per sensor.
pub open spec fn spec_encoded(d2s: Seq<int>) -> Seq<u8> {
    Seq::new(
        NUM_NEURONS as nat,
        |b: int| bit_of_level(level_of_dist_sq(d2s[sensor_of_bit(b)]), b),
    )
}

/// Encodes one proximity per sensor, each in hundredths, into the
/// eight-bit input vector: every bit is set exactly when its sensor's
/// graded level reaches the bit's required level.
pub fn encode(proximities: &Vec<u32>) -> (r: Vec<u8>)
    requires
        proximities@.len() == NUM_SENSORS,
    ensures
        bits_wf(r@, NUM_NEURONS as int),
        forall|b: int| 0 <= b < NUM_NEURONS
            ==> r@[b] == bit_of_level(
                level_of_proximity(proximities@[sensor_of_bit(b)] as int),
                b,
            ),
{
    let mut r: Vec<u8> = Vec::new();
    let mut b: usize = 0;
    while b < NUM_NEURONS
        invariant
            proximities@.len() == NUM_SENSORS,
            b <= NUM_NEURONS,
            r@.len() == b,
            forall|k: int| 0 <= k < b
                ==> r@[k] == bit_of_level(
                    level_of_proximity(proximities@[sensor_of_bit(k)] as int),
                    k,
                ),
        decreases NUM_NEURONS - b,
    {
        let sensor: usize = if b <= 2 {
            0
        } else if b <= 4 {
            1
        } else {
            2
        };
        let level = level_from_proximity(proximities[sensor]);
        r.push(bit_at_level(level, b));
        b = b + 1;
    }
    r
}

/// The graded level of a proximity in hundredths.
pub fn level_from_proximity(p: u32) -> (r: u32)
    ensures
        r as int == level_of_proximity(p as int),
{
    if p >= 80 {
        3
    } else if p >= 50 {
        2
    } else if p >= 25 {
        1
    } else {
        0
    }
}

/// Bit `b` of the vector, given its sensor's level.
fn bit_at_level(level: u32, b: usize) -> (r: u8)
    requires
        b < NUM_NEURONS,
    ensures
        r == bit_of_level(level as int, b as int),
{
    let needed: u32 = if b == 0 || b == 5 {
        3
    } else if b == 1 || b == 3 || b == 6 {
        2
    } else {
        1
    };
    if level >= needed {
        1
    } else {
        0
    }
}

/// The graded level of a squared distance.
pub fn level_from_dist_sq(d2: i64) -> (r: u32)
    ensures
        r as int == level_of_dist_sq(d2 as int),
{
    if d2 <= 144 {
        3
    } else if d2 <= 900 {
        2
    } else if d2 <= 2025 {
        1
    } else {
        0
    }
}

/// Builds the vector from one squared distance per sensor.
pub fn encode_dist_sq(d2s: &Vec<i64>) -> (r: Vec<u8>)
    requires
        d2s@.len() == NUM_SENSORS,
    ensures
        bits_wf(r@, NUM_NEURONS as int),
        r@ == spec_encoded(d2s@.map_values(|d: i64| d as int)),
{
    let mut r: Vec<u8> = Vec::new();
    let mut b: usize = 0;
    while b < NUM_NEURONS
        invariant
            d2s@.len() == NUM_SENSORS,
            b <= NUM_NEURONS,
            r@.len() == b,
            forall|k: int| 0 <= k < b
                ==> r@[k] == bit_of_level(level_of_dist_sq(d2s@[sensor_of_bit(k)] as int), k),
        decreases NUM_NEURONS - b,
    {
        let sensor: usize = if b <= 2 {
            0
        } else if b <= 4 {
            1
        } else {
            2
        };
        let level = level_from_dist_sq(d2s[sensor]);
        r.push(bit_at_level(level, b));
        b = b + 1;
    }
    proof {
        assert(r@ =~= spec_encoded(d2s@.map_values(|d: i64| d as int)));
    }
    r
}

} // verus!
