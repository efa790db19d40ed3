//! An evolving population of spiking-neuron rover controllers.
//!
//! A rover moves on an eight-direction compass inside a rectangular world
//! with a square obstacle at the origin.  Each life, a small leaky
//! integrate-and-fire network (a `Brain`) turns sensed wall distances into
//! steering decisions; a generational loop scores each brain by how long
//! the rover holds its heading, then selects and mutates brains in
//! proportion to fitness.  All randomness comes from an explicit seedable
//! stream, so every run is replayable.

use vstd::prelude::*;

pub mod brain;
pub mod controller;
pub mod evolution;
pub mod mover;
pub mod rng;
pub mod sensor;

verus! {

/// Number of neurons in a brain; the input vector has one bit per neuron.
pub const NUM_NEURONS: usize = 8;

/// Number of stored brains (the population size).
pub const NUM_BRAINS: usize = 10;

/// Number of compass directions the rover can travel.
pub const NUM_ANGLES: usize = 8;

/// Number of distance sensors (antennae).
pub const NUM_SENSORS: usize = 3;

/// Length of an antenna, in world units.
pub const SENSOR_LENGTH: i32 = 60;

/// Ticks a life may last before it is ended by the generation loop.
pub const MAX_LOOP_KNT: usize = 2000;

/// Half-width of the square obstacle centered at the origin.
pub const ROCK_HALF: i32 = 50;

} // verus!
