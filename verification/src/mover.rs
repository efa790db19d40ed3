//! The rover: position, heading, sensors, and its pool of brains.
//!
//! The rover travels on an integer grid, one unit step per tick along
//! one of eight compass directions.  Each tick it ray-casts three
//! antennae, encodes the sensed distances, lets the active brain decide
//! a steering, and moves; holding the heading earns one fitness point.
//! The world is a rectangle with a square obstacle at the origin; a
//! point outside the rectangle or inside the obstacle is blocked.

use vstd::prelude::*;

use crate::NUM_ANGLES;
use crate::NUM_BRAINS;
use crate::NUM_NEURONS;
use crate::NUM_SENSORS;
use crate::ROCK_HALF;
use crate::SENSOR_LENGTH;
use crate::brain::Brain;
use crate::brain::bits_wf;
use crate::brain::spec_rewarded;
use crate::controller::SETTLING_TIME;
use crate::controller::Steering;
use crate::controller::decide;
use crate::controller::spec_bias_state;
use crate::controller::spec_biased;
use crate::controller::spec_decision;
use crate::rng::RoverRng;
use crate::rng::draw_below;
use crate::rng::lcg_iter;
use crate::rng::spec_lcg;
use crate::sensor::dist_sq;
use crate::sensor::encode_dist_sq;
use crate::sensor::spec_encoded;

verus! {

/// Coordinates of every position stay within this bound; it keeps all
/// the grid arithmetic far from any integer limit.
pub const POS_LIMIT: i32 = 1000000;

/// The x step of compass direction `a` (east is 0, counterclockwise).
pub open spec fn spec_dx(a: int) -> int {
    if a == 0 || a == 1 || a == 7 {
        1
    } else if a == 3 || a == 4 || a == 5 {
        -1
    } else {
        0
    }
}

/// The y step of compass direction `a`.
pub open spec fn spec_dy(a: int) -> int {
    if a == 1 || a == 2 || a == 3 {
        1
    } else if a == 5 || a == 6 || a == 7 {
        -1
    } else {
        0
    }
}

/// The x step of compass direction `a`.
pub fn angle_dx(a: usize) -> (r: i32)
    requires
        a < NUM_ANGLES,
    ensures
        r as int == spec_dx(a as int),
        -1 <= r <= 1,
{
    if a == 0 || a == 1 || a == 7 {
        1
    } else if a == 3 || a == 4 || a == 5 {
        -1
    } else {
        0
    }
}

/// The y step of compass direction `a`.
pub fn angle_dy(a: usize) -> (r: i32)
    requires
        a < NUM_ANGLES,
    ensures
        r as int == spec_dy(a as int),
        -1 <= r <= 1,
{
    if a == 1 || a == 2 || a == 3 {
        1
    } else if a == 5 || a == 6 || a == 7 {
        -1
    } else {
        0
    }
}

/// The heading one step counterclockwise: 7 wraps to 0.
pub fn increment_angle(a: usize) -> (r: usize)
    requires
        a < NUM_ANGLES,
    ensures
        r as int == (a + 1) % (NUM_ANGLES as int),
        r < NUM_ANGLES,
{
    if a == NUM_ANGLES - 1 {
        0
    } else {
        a + 1
    }
}

/// The heading one step clockwise: 0 wraps to 7.
pub fn decrement_angle(a: usize) -> (r: usize)
    requires
        a < NUM_ANGLES,
    ensures
        r as int == (a + NUM_ANGLES - 1) % (NUM_ANGLES as int),
        r < NUM_ANGLES,
{
    if a == 0 {
        NUM_ANGLES - 1
    } else {
        a - 1
    }
}

/// The heading after applying a steering decision.
pub open spec fn spec_apply_steering(a: int, d: Steering) -> int {
    match d {
        Steering::TurnLeft => (a + 1) % (NUM_ANGLES as int),
        Steering::GoStraight => a,
        Steering::TurnRight => (a + NUM_ANGLES - 1) % (NUM_ANGLES as int),
    }
}

/// The world bounds the rover lives in.
#[derive(Clone, Copy)]
pub struct WorldRect {
    pub left: i32,
    pub right: i32,
    pub bottom: i32,
    pub top: i32,
}

impl WorldRect {
    /// A non-empty rectangle, comfortably within the coordinate bound.
    pub open spec fn wf(&self) -> bool {
        &&& (-POS_LIMIT as int) + 100 < self.left as int
        &&& (self.right as int) < (POS_LIMIT as int) - 100
        &&& (-POS_LIMIT as int) + 100 < self.bottom as int
        &&& (self.top as int) < (POS_LIMIT as int) - 100
        &&& self.left <= self.right
        &&& self.bottom <= self.top
    }
}

/// Whether a point is blocked: outside the world rectangle, or inside
/// the square obstacle of half-width `ROCK_HALF` centered at the origin.
pub open spec fn spec_blocked(x: int, y: int, rect: WorldRect) -> bool {
    ||| x > rect.right as int
    ||| x < rect.left as int
    ||| y < rect.bottom as int
    ||| y > rect.top as int
    ||| in_rock(x, y)
}

/// Whether a point lies inside the central obstacle.
pub open spec fn in_rock(x: int, y: int) -> bool {
    &&& (-ROCK_HALF as int) <= x <= (ROCK_HALF as int)
    &&& (-ROCK_HALF as int) <= y <= (ROCK_HALF as int)
}

/// The rover and its population of brains.
pub struct Mover {
    pub position: (i32, i32),
    pub angle_index: usize,
    pub old_angle_index: usize,
    pub velocity_x: i32,
    pub velocity_y: i32,
    pub multiplier: i32,
    pub sensor_data: Vec<(i32, i32)>,
    pub sensor_data_vector: Vec<u8>,
    pub isdead: i32,
    pub brain_index: usize,
    pub brain: Brain,
    pub brains: Vec<Brain>,
}

impl Mover {
    /// Structural soundness: headings in range, a full population of
    /// well-formed brains, binary input vector, coordinates bounded.
    pub open spec fn wf(&self) -> bool {
        &&& self.angle_index < NUM_ANGLES
        &&& self.old_angle_index < NUM_ANGLES
        &&& self.multiplier == 1
        &&& self.isdead == 0 || self.isdead == 1
        &&& self.brain.wf()
        &&& self.brain_index < NUM_BRAINS
        &&& self.brains@.len() == NUM_BRAINS
        &&& forall|i: int| 0 <= i < NUM_BRAINS ==> (#[trigger] self.brains@[i]).wf()
        &&& self.sensor_data@.len() == NUM_SENSORS
        &&& bits_wf(self.sensor_data_vector@, NUM_NEURONS as int)
        &&& in_pos_bounds(self.position)
        &&& forall|i: int| 0 <= i < NUM_SENSORS ==> in_endpoint_bounds(#[trigger] self.sensor_data@[i])
    }

    /// Pure blocked test against the bounds and the central obstacle;
    /// used both for death detection and for sensor-ray termination.
    pub fn check_collisions(&mut self, xpos: i32, ypos: i32, rect: WorldRect) -> (r: u32)
        ensures
            *final(self) == *old(self),
            r == 1 <==> spec_blocked(xpos as int, ypos as int, rect),
            r == 0 <==> !spec_blocked(xpos as int, ypos as int, rect),
    {
        if xpos > rect.right {
            return 1;
        }
        if xpos < rect.left {
            return 1;
        }
        if ypos < rect.bottom {
            return 1;
        }
        if ypos > rect.top {
            return 1;
        }
        if xpos >= -ROCK_HALF && xpos <= ROCK_HALF && ypos >= -ROCK_HALF && ypos <= ROCK_HALF {
            return 1;
        }
        0
    }

    /// Death check at the top of a tick.  A rover beyond a wall is
    /// clamped onto that wall and marked dead, the first violated wall
    /// winning; one inside the obstacle is marked dead in place; any
    /// other rover is left exactly as it was (a live flag is never
    /// restored here).
    pub fn check_dead(&mut self, rect: WorldRect)
        requires
            old(self).wf(),
            rect.wf(),
        ensures
            final(self).wf(),
            unchanged_but_death(*old(self), *final(self)),
            ({
                let x = old(self).position.0 as int;
                let y = old(self).position.1 as int;
                if x > rect.right as int {
                    final(self).position == (rect.right, old(self).position.1)
                        && final(self).isdead == 1
                } else if x < rect.left as int {
                    final(self).position == (rect.left, old(self).position.1)
                        && final(self).isdead == 1
                } else if y < rect.bottom as int {
                    final(self).position == (old(self).position.0, rect.bottom)
                        && final(self).isdead == 1
                } else if y > rect.top as int {
                    final(self).position == (old(self).position.0, rect.top)
                        && final(self).isdead == 1
                } else if in_rock(x, y) {
                    final(self).position == old(self).position && final(self).isdead == 1
                } else {
                    final(self).position == old(self).position && final(self).isdead == old(
                        self,
                    ).isdead
                }
            }),
    {
        if self.position.0 > rect.right {
            self.position.0 = rect.right;
            self.isdead = 1;
            return;
        }
        if self.position.0 < rect.left {
            self.position.0 = rect.left;
            self.isdead = 1;
            return;
        }
        if self.position.1 < rect.bottom {
            self.position.1 = rect.bottom;
            self.isdead = 1;
            return;
        }
        if self.position.1 > rect.top {
            self.position.1 = rect.top;
            self.isdead = 1;
            return;
        }
        if self.position.0 >= -ROCK_HALF && self.position.0 <= ROCK_HALF && self.position.1
            >= -ROCK_HALF && self.position.1 <= ROCK_HALF {
            self.isdead = 1;
            return;
        }
    }

    /// A rover at `(x, y)` with a random heading, a random active-slot
    /// index, a fresh random population, and an independent random
    /// active brain (the bootstrap brain, not yet stored in any slot).
    /// Sensors start at the origin with a dark input vector.
    pub fn new(x: i32, y: i32, rng: &mut RoverRng) -> (r: Mover)
        requires
            -POS_LIMIT <= x <= POS_LIMIT,
            -POS_LIMIT <= y <= POS_LIMIT,
        ensures
            r.wf(),
            r.position == (x, y),
            r.angle_index as int == draw_below(old(rng).state, NUM_ANGLES as u64),
            r.old_angle_index as int == draw_below(lcg_iter(old(rng).state, 1), NUM_ANGLES as u64),
            r.velocity_x as int == spec_dx(r.angle_index as int),
            r.velocity_y as int == spec_dy(r.angle_index as int),
            r.multiplier == 1,
            r.sensor_data@ == Seq::new(NUM_SENSORS as nat, |i: int| (0i32, 0i32)),
            r.sensor_data_vector@ == Seq::new(NUM_NEURONS as nat, |i: int| 0u8),
            r.isdead == 0,
            r.brain_index as int == draw_below(lcg_iter(old(rng).state, 2), NUM_BRAINS as u64),
            r.brains@.len() == NUM_BRAINS,
            forall|k: int| 0 <= k < NUM_BRAINS
                ==> (#[trigger] r.brains@[k])@ == crate::brain::brain_new_at(
                    lcg_iter(old(rng).state, 3),
                    k as nat,
                ),
            r.brain@ == crate::brain::brain_new_at(
                lcg_iter(old(rng).state, 3),
                NUM_BRAINS as nat,
            ),
            final(rng).state == crate::brain::pop_state(
                lcg_iter(old(rng).state, 3),
                (NUM_BRAINS + 1) as nat,
            ),
    {
        let ghost s0 = rng.state;
        let position = (x, y);
        let angle_index = rng.random_below(NUM_ANGLES as u64) as usize;
        let old_angle_index = rng.random_below(NUM_ANGLES as u64) as usize;
        let velocity_x = angle_dx(angle_index);
        let velocity_y = angle_dy(angle_index);
        let multiplier: i32 = 1;
        proof {
            assert(lcg_iter(s0, 1) == spec_lcg(lcg_iter(s0, 0)));
            assert(lcg_iter(s0, 2) == spec_lcg(lcg_iter(s0, 1)));
            assert(lcg_iter(s0, 3) == spec_lcg(lcg_iter(s0, 2)));
        }

        let mut sensor_data: Vec<(i32, i32)> = Vec::new();
        let mut i: usize = 0;
        while i < NUM_SENSORS
            invariant
                i <= NUM_SENSORS,
                sensor_data@.len() == i,
                forall|k: int| 0 <= k < i ==> sensor_data@[k] == (0i32, 0i32),
            decreases NUM_SENSORS - i,
        {
            sensor_data.push((0, 0));
            i = i + 1;
        }
        let mut sensor_data_vector: Vec<u8> = Vec::new();
        let mut j: usize = 0;
        while j < NUM_NEURONS
            invariant
                j <= NUM_NEURONS,
                sensor_data_vector@.len() == j,
                forall|k: int| 0 <= k < j ==> sensor_data_vector@[k] == 0u8,
            decreases NUM_NEURONS - j,
        {
            sensor_data_vector.push(0);
            j = j + 1;
        }

        let isdead: i32 = 0;
        let brain_index = rng.random_below(NUM_BRAINS as u64) as usize;
        let ghost s3 = rng.state;

        let mut brains: Vec<Brain> = Vec::new();
        let mut k: usize = 0;
        while k < NUM_BRAINS
            invariant
                k <= NUM_BRAINS,
                brains@.len() == k,
                rng.state == crate::brain::pop_state(s3, k as nat),
                forall|m: int| 0 <= m < k
                    ==> (#[trigger] brains@[m])@ == crate::brain::brain_new_at(s3, m as nat),
            decreases NUM_BRAINS - k,
        {
            let b = new_slot_brain(rng, Ghost(s3), Ghost(k as nat));
            brains.push(b);
            k = k + 1;
        }

        let brain = new_slot_brain(rng, Ghost(s3), Ghost(NUM_BRAINS as nat));

        let r = Mover {
            position,
            angle_index,
            old_angle_index,
            velocity_x,
            velocity_y,
            multiplier,
            sensor_data,
            sensor_data_vector,
            isdead,
            brain_index,
            brain,
            brains,
        };
        proof {
            assert(r.sensor_data@ =~= Seq::new(NUM_SENSORS as nat, |i: int| (0i32, 0i32)));
            assert(r.sensor_data_vector@ =~= Seq::new(NUM_NEURONS as nat, |i: int| 0u8));
            assert forall|m: int| 0 <= m < NUM_BRAINS implies (#[trigger] r.brains@[m]).wf() by {
                reveal(crate::brain::brain_new_at);
                crate::brain::lemma_brain_new_wf(crate::brain::pop_state(s3, m as nat));
            }
        }
        r
    }

    /// Ray-casts the three antennae and stores their endpoints: sensor 0
    /// looks one compass step left of the heading, sensor 1 straight
    /// ahead, sensor 2 one step right.  Each ray walks unit steps until
    /// it hits a blocked point (kept as the endpoint), leaves the sensor
    /// range, or has taken a full sensor length of steps.
    pub fn get_sensor_data(&mut self, rect: WorldRect)
        requires
            old(self).wf(),
            rect.wf(),
        ensures
            final(self).wf(),
            final(self).sensor_data@.len() == NUM_SENSORS,
            forall|i: int| 0 <= i < NUM_SENSORS
                ==> view_pt(#[trigger] final(self).sensor_data@[i]) == spec_ray(
                    view_pt(old(self).position),
                    view_pt(old(self).position),
                    spec_sensor_angle(old(self).angle_index as int, i),
                    rect,
                    SENSOR_LENGTH as nat,
                ),
            final(self).position == old(self).position,
            final(self).angle_index == old(self).angle_index,
            final(self).old_angle_index == old(self).old_angle_index,
            final(self).velocity_x == old(self).velocity_x,
            final(self).velocity_y == old(self).velocity_y,
            final(self).multiplier == old(self).multiplier,
            final(self).sensor_data_vector == old(self).sensor_data_vector,
            final(self).isdead == old(self).isdead,
            final(self).brain_index == old(self).brain_index,
            final(self).brain == old(self).brain,
            final(self).brains == old(self).brains,
    {
        let mut isensor: usize = 0;
        while isensor < NUM_SENSORS
            invariant
                self.wf(),
                rect.wf(),
                isensor <= NUM_SENSORS,
                forall|i: int| 0 <= i < isensor
                    ==> view_pt(#[trigger] self.sensor_data@[i]) == spec_ray(
                        view_pt(old(self).position),
                        view_pt(old(self).position),
                        spec_sensor_angle(old(self).angle_index as int, i),
                        rect,
                        SENSOR_LENGTH as nat,
                    ),
                self.position == old(self).position,
                self.angle_index == old(self).angle_index,
                self.old_angle_index == old(self).old_angle_index,
                self.velocity_x == old(self).velocity_x,
                self.velocity_y == old(self).velocity_y,
                self.multiplier == old(self).multiplier,
                self.sensor_data_vector == old(self).sensor_data_vector,
                self.isdead == old(self).isdead,
                self.brain_index == old(self).brain_index,
                self.brain == old(self).brain,
                self.brains == old(self).brains,
            decreases NUM_SENSORS - isensor,
        {
            let sensor_ai: usize = if isensor == 0 {
                increment_angle(self.angle_index)
            } else if isensor == 1 {
                self.angle_index
            } else {
                decrement_angle(self.angle_index)
            };
            let end = cast_ray(self.position, sensor_ai, rect);
            self.sensor_data.set(isensor, end);
            isensor = isensor + 1;
        }
    }

    /// Encodes the last ray-cast endpoints into the binary input vector:
    /// per sensor, the squared distance from the rover to the endpoint
    /// grades into a proximity level, and each bit of the sensor's group
    /// lights up when the level reaches the bit's threshold.  All bits
    /// start at zero each call; a distance at or beyond the sensor
    /// length (the raw clamp of the distance) leaves its group dark.
    pub fn build_sensor_data_vector(&mut self)
        requires
            old(self).wf(),
        ensures
            final(self).wf(),
            final(self).sensor_data_vector@ == spec_encoded(
                spec_sensor_d2s(old(self).sensor_data@, old(self).position),
            ),
            final(self).position == old(self).position,
            final(self).angle_index == old(self).angle_index,
            final(self).old_angle_index == old(self).old_angle_index,
            final(self).velocity_x == old(self).velocity_x,
            final(self).velocity_y == old(self).velocity_y,
            final(self).multiplier == old(self).multiplier,
            final(self).sensor_data == old(self).sensor_data,
            final(self).isdead == old(self).isdead,
            final(self).brain_index == old(self).brain_index,
            final(self).brain == old(self).brain,
            final(self).brains == old(self).brains,
    {
        let mut d2s: Vec<i64> = Vec::new();
        let mut i: usize = 0;
        while i < NUM_SENSORS
            invariant
                self.wf(),
                i <= NUM_SENSORS,
                d2s@.len() == i,
                forall|k: int| 0 <= k < i
                    ==> d2s@[k] as int == dist_sq(
                        view_pt(self.sensor_data@[k]),
                        view_pt(self.position),
                    ),
            decreases NUM_SENSORS - i,
        {
            let (ex, ey) = self.sensor_data[i];
            let dx = ex as i64 - self.position.0 as i64;
            let dy = ey as i64 - self.position.1 as i64;
            proof {
                lemma_square_bound(dx as int, 3 * POS_LIMIT as int);
                lemma_square_bound(dy as int, 3 * POS_LIMIT as int);
            }
            d2s.push(dx * dx + dy * dy);
            i = i + 1;
        }
        let encoded = encode_dist_sq(&d2s);
        proof {
            assert(d2s@.map_values(|d: i64| d as int) =~= spec_sensor_d2s(
                self.sensor_data@,
                self.position,
            ));
        }
        self.sensor_data_vector = encoded;
    }

    /// One full decision: encodes the stored sensor endpoints, applies
    /// the anti-silence bias (which may consume one draw and is left
    /// visible in the input vector), runs the settling window, and turns
    /// the heading one step left or right or keeps it.  The previous
    /// heading is remembered so the motion update can reward a held
    /// course.
    pub fn think(&mut self, rng: &mut RoverRng)
        requires
            old(self).wf(),
        ensures
            final(self).wf(),
            ({
                let v0 = spec_encoded(
                    spec_sensor_d2s(old(self).sensor_data@, old(self).position),
                );
                let s0 = old(rng).state;
                let v1 = spec_biased(v0, s0);
                let s1 = spec_bias_state(v0, s0);
                &&& final(self).sensor_data_vector@ == v1
                &&& final(self).old_angle_index == old(self).angle_index
                &&& final(self).angle_index as int == spec_apply_steering(
                    old(self).angle_index as int,
                    spec_decision(old(self).brain@, v1, s1),
                )
                &&& final(rng).state == lcg_iter(
                    s1,
                    (crate::controller::SETTLING_TIME * NUM_NEURONS) as nat,
                )
            }),
            final(self).position == old(self).position,
            final(self).velocity_x == old(self).velocity_x,
            final(self).velocity_y == old(self).velocity_y,
            final(self).multiplier == old(self).multiplier,
            final(self).sensor_data == old(self).sensor_data,
            final(self).isdead == old(self).isdead,
            final(self).brain_index == old(self).brain_index,
            final(self).brain == old(self).brain,
            final(self).brains == old(self).brains,
    {
        self.build_sensor_data_vector();
        let (steering, _counts) = decide(&self.brain, &mut self.sensor_data_vector, rng);
        let new_angle_index = match steering {
            Steering::TurnLeft => increment_angle(self.angle_index),
            Steering::GoStraight => self.angle_index,
            Steering::TurnRight => decrement_angle(self.angle_index),
        };
        self.old_angle_index = self.angle_index;
        self.angle_index = new_angle_index;
    }

    /// One mutation of the active brain: flips one random polarity flag
    /// and one random recurrent gate.  The input gates are never
    /// mutated, so every input channel stays connected.
    pub fn mutate(&mut self, rng: &mut RoverRng)
        requires
            old(self).wf(),
        ensures
            final(self).wf(),
            final(self).brain@ == crate::brain::spec_mutated(old(self).brain@, old(rng).state),
            final(rng).state == lcg_iter(old(rng).state, 3),
            final(self).position == old(self).position,
            final(self).angle_index == old(self).angle_index,
            final(self).old_angle_index == old(self).old_angle_index,
            final(self).velocity_x == old(self).velocity_x,
            final(self).velocity_y == old(self).velocity_y,
            final(self).multiplier == old(self).multiplier,
            final(self).sensor_data == old(self).sensor_data,
            final(self).sensor_data_vector == old(self).sensor_data_vector,
            final(self).isdead == old(self).isdead,
            final(self).brain_index == old(self).brain_index,
            final(self).brains == old(self).brains,
    {
        let mutidx = rng.random_below(NUM_NEURONS as u64) as usize;
        let cur = self.brain.xsign[mutidx];
        if cur == 0 {
            self.brain.set_xsign(mutidx, 1);
        } else {
            self.brain.set_xsign(mutidx, 0);
        }

        let mutidx2 = rng.random_below(NUM_NEURONS as u64) as usize;
        let ilink = rng.random_below(NUM_NEURONS as u64) as usize;
        let cur2 = self.brain.get_nconn(mutidx2, ilink);
        if cur2 == 0 {
            self.brain.set_nconn(mutidx2, ilink, 1);
        } else {
            self.brain.set_nconn(mutidx2, ilink, 0);
        }
        proof {
            let s0 = old(rng).state;
            assert(lcg_iter(s0, 1) == spec_lcg(lcg_iter(s0, 0)));
            assert(lcg_iter(s0, 2) == spec_lcg(lcg_iter(s0, 1)));
            assert(lcg_iter(s0, 3) == spec_lcg(lcg_iter(s0, 2)));
        }
    }

    /// Resets the rover for a new life: zero fitness, alive, at the
    /// configured start pose, with a freshly drawn heading.  The stored
    /// population, the active brain's gates and the previous-heading
    /// marker are untouched.
    pub fn reset_mover(&mut self, width: i32, height: i32, rng: &mut RoverRng)
        requires
            old(self).wf(),
            0 <= width <= POS_LIMIT,
            0 <= height <= POS_LIMIT,
        ensures
            final(self).wf(),
            final(self).brain@.fitness == 0,
            final(self).brain@.xsign == old(self).brain@.xsign,
            final(self).brain@.iconn == old(self).brain@.iconn,
            final(self).brain@.nconn == old(self).brain@.nconn,
            final(self).isdead == 0,
            final(self).position.0 as int == width as int / 2 - SENSOR_LENGTH + 10,
            final(self).position.1 as int == height as int / 2 - SENSOR_LENGTH,
            final(self).angle_index as int == draw_below(old(rng).state, NUM_ANGLES as u64),
            final(self).multiplier == 1,
            final(self).velocity_x as int == spec_dx(final(self).angle_index as int),
            final(self).velocity_y as int == spec_dy(final(self).angle_index as int),
            final(rng).state == spec_lcg(old(rng).state),
            final(self).old_angle_index == old(self).old_angle_index,
            final(self).sensor_data == old(self).sensor_data,
            final(self).sensor_data_vector == old(self).sensor_data_vector,
            final(self).brain_index == old(self).brain_index,
            final(self).brains == old(self).brains,
    {
        self.brain.fitness = 0;
        self.isdead = 0;
        let start_x = width / 2 - SENSOR_LENGTH + 10;
        let start_y = height / 2 - SENSOR_LENGTH;
        self.position = (start_x, start_y);
        self.angle_index = rng.random_below(NUM_ANGLES as u64) as usize;
        self.multiplier = 1;
        self.velocity_x = angle_dx(self.angle_index);
        self.velocity_y = angle_dy(self.angle_index);
    }

    /// One whole live step: sense, decide, move — `get_sensor_data`,
    /// `think` and `update_mover` in the driver's order, related to the
    /// prior state by `spec_alive_step`.
    pub(crate) fn sense_decide_move(&mut self, rect: WorldRect, rng: &mut RoverRng)
        requires
            old(self).wf(),
            rect.wf(),
            -POS_LIMIT < old(self).position.0 < POS_LIMIT,
            -POS_LIMIT < old(self).position.1 < POS_LIMIT,
            old(self).brain.fitness < u32::MAX,
        ensures
            final(self).wf(),
            spec_alive_step(*old(self), rect, old(rng).state, *final(self), final(rng).state),
            final(self).isdead == old(self).isdead,
            final(self).brain.fitness <= old(self).brain.fitness + 1,
    {
        let ghost m0 = *old(self);
        let ghost s0 = rng.state;
        self.get_sensor_data(rect);
        proof {
            assert(spec_sensor_d2s(self.sensor_data@, m0.position) =~= spec_sensed_d2s(
                m0.position,
                m0.angle_index as int,
                rect,
            ));
        }
        self.think(rng);
        self.update_mover();
        proof {
            reveal(spec_alive_step);
            let held = self.angle_index == self.old_angle_index;
            assert(self.brain@ == spec_rewarded(m0.brain@, held));
        }
    }

    /// One motion step: the velocity becomes the unit step of the
    /// current heading and the position advances by it.  Holding the
    /// heading this tick earns the active brain one fitness point; that
    /// is the sole fitness signal.
    pub fn update_mover(&mut self)
        requires
            old(self).wf(),
            -POS_LIMIT < old(self).position.0 < POS_LIMIT,
            -POS_LIMIT < old(self).position.1 < POS_LIMIT,
            old(self).brain.fitness < u32::MAX,
        ensures
            final(self).wf(),
            final(self).velocity_x as int == spec_dx(old(self).angle_index as int),
            final(self).velocity_y as int == spec_dy(old(self).angle_index as int),
            final(self).position.0 as int == old(self).position.0 + spec_dx(
                old(self).angle_index as int,
            ),
            final(self).position.1 as int == old(self).position.1 + spec_dy(
                old(self).angle_index as int,
            ),
            final(self).brain.fitness as int == spec_reward(
                old(self).angle_index == old(self).old_angle_index,
                old(self).brain.fitness as int,
            ),
            final(self).brain@.xsign == old(self).brain@.xsign,
            final(self).brain@.iconn == old(self).brain@.iconn,
            final(self).brain@.nconn == old(self).brain@.nconn,
            final(self).angle_index == old(self).angle_index,
            final(self).old_angle_index == old(self).old_angle_index,
            final(self).sensor_data == old(self).sensor_data,
            final(self).sensor_data_vector == old(self).sensor_data_vector,
            final(self).isdead == old(self).isdead,
            final(self).brain_index == old(self).brain_index,
            final(self).brains == old(self).brains,
            final(self).multiplier == old(self).multiplier,
    {
        let accel_x = self.multiplier * angle_dx(self.angle_index);
        let accel_y = self.multiplier * angle_dy(self.angle_index);
        self.velocity_x = accel_x;
        self.velocity_y = accel_y;
        self.position.0 = self.position.0 + self.velocity_x;
        self.position.1 = self.position.1 + self.velocity_y;
        if self.angle_index == self.old_angle_index {
            self.brain.fitness = self.brain.fitness + 1;
        }
    }
}

/// One whole live step of the rover, as a relation between the rover
/// `m0` before it, the stream state `s0`, and the rover `post` and
/// stream state `s_end` after it: the antennae are ray-cast from the
/// old pose, their distances encoded and biased, the settling window
/// decides a steering, the heading turns by it, the position advances
/// one unit along the new heading, and the reward rule runs.  Kept
/// opaque so that callers passing the relation along do not unfold it.
#[verifier::opaque]
pub open spec fn spec_alive_step(
    m0: Mover,
    rect: WorldRect,
    s0: u64,
    post: Mover,
    s_end: u64,
) -> bool {
    let v0 = spec_encoded(spec_sensed_d2s(m0.position, m0.angle_index as int, rect));
    let v1 = spec_biased(v0, s0);
    let s1 = spec_bias_state(v0, s0);
    let a2 = spec_apply_steering(m0.angle_index as int, spec_decision(m0.brain@, v1, s1));
    let held = a2 == m0.angle_index as int;
    &&& post.sensor_data_vector@ == v1
    &&& post.sensor_data@.len() == NUM_SENSORS
    &&& forall|i: int| 0 <= i < NUM_SENSORS
        ==> view_pt(#[trigger] post.sensor_data@[i]) == spec_ray(
            view_pt(m0.position),
            view_pt(m0.position),
            spec_sensor_angle(m0.angle_index as int, i),
            rect,
            SENSOR_LENGTH as nat,
        )
    &&& post.brains == m0.brains
    &&& post.brain_index == m0.brain_index
    &&& post.isdead == m0.isdead
    &&& post.old_angle_index == m0.angle_index
    &&& post.angle_index as int == a2
    &&& post.position.0 as int == m0.position.0 + spec_dx(a2)
    &&& post.position.1 as int == m0.position.1 + spec_dy(a2)
    &&& post.velocity_x as int == spec_dx(a2)
    &&& post.velocity_y as int == spec_dy(a2)
    &&& post.multiplier == m0.multiplier
    &&& post.brain@ == spec_rewarded(m0.brain@, held)
    &&& s_end == lcg_iter(s1, (SETTLING_TIME * NUM_NEURONS) as nat)
}

/// A pair of exec coordinates as a pair of mathematical integers.
pub open spec fn view_pt(p: (i32, i32)) -> (int, int) {
    (p.0 as int, p.1 as int)
}

/// The compass direction sensor `i` looks along: one step left of the
/// heading, the heading itself, or one step right.
pub open spec fn spec_sensor_angle(angle: int, i: int) -> int {
    if i == 0 {
        (angle + 1) % (NUM_ANGLES as int)
    } else if i == 1 {
        angle
    } else {
        (angle + NUM_ANGLES - 1) % (NUM_ANGLES as int)
    }
}

/// The endpoint of a sensor ray walked from `cur` along direction `a`
/// for at most `k` unit steps: the walk stops on the first blocked
/// point (which is kept as the endpoint), on the first point farther
/// than the sensor length from `origin`, or after `k` steps.
pub open spec fn spec_ray(
    origin: (int, int),
    cur: (int, int),
    a: int,
    rect: WorldRect,
    k: nat,
) -> (int, int)
    decreases k,
{
    if k == 0 {
        cur
    } else {
        let nx = cur.0 + spec_dx(a);
        let ny = cur.1 + spec_dy(a);
        if spec_blocked(nx, ny, rect) {
            (nx, ny)
        } else if dist_sq((nx, ny), origin) > (SENSOR_LENGTH * SENSOR_LENGTH) as int {
            (nx, ny)
        } else {
            spec_ray(origin, (nx, ny), a, rect, (k - 1) as nat)
        }
    }
}

/// The squared distances sensed by the three antennae, given their
/// endpoints and the rover position.
pub open spec fn spec_sensor_d2s(sd: Seq<(i32, i32)>, pos: (i32, i32)) -> Seq<int> {
    Seq::new(NUM_SENSORS as nat, |i: int| dist_sq(view_pt(sd[i]), view_pt(pos)))
}

/// The squared distances the three antennae sense from `pos` with
/// heading `angle`, computed straight from the ray model: what
/// `get_sensor_data` followed by the distance step produces.
pub open spec fn spec_sensed_d2s(pos: (i32, i32), angle: int, rect: WorldRect) -> Seq<int> {
    Seq::new(
        NUM_SENSORS as nat,
        |i: int|
            dist_sq(
                spec_ray(
                    view_pt(pos),
                    view_pt(pos),
                    spec_sensor_angle(angle, i),
                    rect,
                    SENSOR_LENGTH as nat,
                ),
                view_pt(pos),
            ),
    )
}

/// The reward rule: a tick that holds the heading earns one fitness
/// point, a tick that turns earns none.
pub open spec fn spec_reward(held: bool, fitness: int) -> int {
    if held {
        fitness + 1
    } else {
        fitness
    }
}

/// The fitness after a run of motion updates, given which ticks held
/// the heading: the reward rule applied once per tick.
pub open spec fn reward_after(fitness: int, held: Seq<bool>) -> int
    decreases held.len(),
{
    if held.len() == 0 {
        fitness
    } else {
        spec_reward(held.last(), reward_after(fitness, held.drop_last()))
    }
}

/// Reward accumulation: a run of ticks that all hold the heading ends
/// with exactly one fitness point per tick (five held ticks from zero
/// give five), and the increment is skipped exactly on the ticks that
/// turned.
pub proof fn lemma_reward_accumulation(fitness: int, held: Seq<bool>)
    requires
        forall|i: int| 0 <= i < held.len() ==> held[i],
    ensures
        reward_after(fitness, held) == fitness + held.len(),
    decreases held.len(),
{
    if held.len() > 0 {
        lemma_reward_accumulation(fitness, held.drop_last());
    }
}

/// The reward rule case by case: one point on a held heading, none on
/// a turn.
pub proof fn lemma_reward_rule(held: bool, fitness: int)
    ensures
        held ==> spec_reward(held, fitness) == fitness + 1,
        !held ==> spec_reward(held, fitness) == fitness,
{
}

/// Draws the brain for population slot `m`, consuming exactly one
/// slot's block of the stream.
fn new_slot_brain(rng: &mut RoverRng, Ghost(s3): Ghost<u64>, Ghost(m): Ghost<nat>) -> (b: Brain)
    requires
        old(rng).state == crate::brain::pop_state(s3, m),
    ensures
        b@ == crate::brain::brain_new_at(s3, m),
        b.wf(),
        final(rng).state == crate::brain::pop_state(s3, m + 1),
{
    let b = Brain::new(rng);
    proof {
        reveal(crate::brain::brain_new_at);
    }
    b
}

/// A square of a bounded value is bounded by the square of the bound.
proof fn lemma_square_bound(x: int, b: int)
    requires
        -b <= x <= b,
        0 <= b,
    ensures
        0 <= x * x <= b * b,
{
    assert(0 <= x * x && x * x <= b * b) by (nonlinear_arith)
        requires
            -b <= x <= b,
            0 <= b,
    ;
}

/// Whether a point is blocked, as executable code.
fn blocked_at(x: i32, y: i32, rect: WorldRect) -> (r: bool)
    ensures
        r <==> spec_blocked(x as int, y as int, rect),
{
    if x > rect.right {
        return true;
    }
    if x < rect.left {
        return true;
    }
    if y < rect.bottom {
        return true;
    }
    if y > rect.top {
        return true;
    }
    if x >= -ROCK_HALF && x <= ROCK_HALF && y >= -ROCK_HALF && y <= ROCK_HALF {
        return true;
    }
    false
}

/// Walks one sensor ray from `origin` along direction `a` and returns
/// its endpoint.
fn cast_ray(origin: (i32, i32), a: usize, rect: WorldRect) -> (r: (i32, i32))
    requires
        a < NUM_ANGLES,
        rect.wf(),
        in_pos_bounds(origin),
    ensures
        view_pt(r) == spec_ray(view_pt(origin), view_pt(origin), a as int, rect, SENSOR_LENGTH as nat),
        in_endpoint_bounds(r),
{
    let ghost target = spec_ray(
        view_pt(origin),
        view_pt(origin),
        a as int,
        rect,
        SENSOR_LENGTH as nat,
    );
    let mut xpos = origin.0;
    let mut ypos = origin.1;
    let mut step: usize = 0;
    let mut broke = false;
    while step < SENSOR_LENGTH as usize && !broke
        invariant
            a < NUM_ANGLES,
            rect.wf(),
            in_pos_bounds(origin),
            step <= SENSOR_LENGTH as usize,
            origin.0 - step <= xpos as int <= origin.0 + step,
            origin.1 - step <= ypos as int <= origin.1 + step,
            !broke ==> spec_ray(
                view_pt(origin),
                view_pt((xpos, ypos)),
                a as int,
                rect,
                (SENSOR_LENGTH as usize - step) as nat,
            ) == target,
            broke ==> view_pt((xpos, ypos)) == target,
        decreases SENSOR_LENGTH as usize - step,
    {
        xpos = xpos + angle_dx(a);
        ypos = ypos + angle_dy(a);
        if blocked_at(xpos, ypos, rect) {
            broke = true;
        } else {
            let fdx = (xpos - origin.0) as i64;
            let fdy = (ypos - origin.1) as i64;
            proof {
                lemma_square_bound(fdx as int, SENSOR_LENGTH as int + 1);
                lemma_square_bound(fdy as int, SENSOR_LENGTH as int + 1);
            }
            if fdx * fdx + fdy * fdy > (SENSOR_LENGTH * SENSOR_LENGTH) as i64 {
                broke = true;
            }
        }
        step = step + 1;
    }
    (xpos, ypos)
}

/// Whether a position lies within the coordinate bound.
pub open spec fn in_pos_bounds(p: (i32, i32)) -> bool {
    &&& -POS_LIMIT <= p.0 <= POS_LIMIT
    &&& -POS_LIMIT <= p.1 <= POS_LIMIT
}

/// Whether a sensor endpoint lies within the (slightly wider) bound
/// reachable by a ray from an in-bounds position.
pub open spec fn in_endpoint_bounds(p: (i32, i32)) -> bool {
    &&& (-POS_LIMIT as int) - (SENSOR_LENGTH as int) - 1 <= p.0 as int <= (POS_LIMIT as int) + (
    SENSOR_LENGTH as int) + 1
    &&& (-POS_LIMIT as int) - (SENSOR_LENGTH as int) - 1 <= p.1 as int <= (POS_LIMIT as int) + (
    SENSOR_LENGTH as int) + 1
}

/// Everything except position and the death flag is untouched.
pub open spec fn unchanged_but_death(a: Mover, b: Mover) -> bool {
    &&& b.angle_index == a.angle_index
    &&& b.old_angle_index == a.old_angle_index
    &&& b.velocity_x == a.velocity_x
    &&& b.velocity_y == a.velocity_y
    &&& b.multiplier == a.multiplier
    &&& b.sensor_data == a.sensor_data
    &&& b.sensor_data_vector == a.sensor_data_vector
    &&& b.brain_index == a.brain_index
    &&& b.brain == a.brain
    &&& b.brains == a.brains
}

} // verus!
