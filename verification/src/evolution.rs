//! The generational loop: scoring, selection, elitism, mutation, reset.
//!
//! A life ends when the rover dies or its tick count passes the life
//! cap.  During the bootstrap phase (one generation per population
//! slot) each finished brain is stored into its slot and the next empty
//! slot becomes active.  From then on the population is sorted by
//! fitness, a slot is drawn in proportion to its share of the total
//! fitness (roulette-wheel selection), a strong finisher may overwrite
//! the worst slot (elitism), and the selected brain is mutated and
//! reset for the next life.
//!
//! Selection arithmetic is exact: a draw `g` of the 64-bit stream
//! stands for the fraction `g / 2^64`, and the cumulative-share
//! comparison is done by cross-multiplication in 128 bits, so the slot
//! chosen is a pure function of the fitness values and the draw.

use vstd::prelude::*;

use crate::MAX_LOOP_KNT;
use crate::NUM_BRAINS;
use crate::SENSOR_LENGTH;
use crate::brain::Brain;
use crate::brain::BrainV;
use crate::NUM_ANGLES;
use crate::NUM_NEURONS;
use crate::brain::brain_new_at;
use crate::brain::pop_state;
use crate::brain::spec_mutated;
use crate::brain::spec_rewarded;
use crate::controller::SETTLING_TIME;
use crate::controller::spec_bias_state;
use crate::controller::spec_biased;
use crate::controller::spec_decision;
use crate::mover::Mover;
use crate::mover::POS_LIMIT;
use crate::mover::WorldRect;
use crate::mover::in_rock;
use crate::mover::spec_alive_step;
use crate::mover::spec_apply_steering;
use crate::mover::spec_dx;
use crate::mover::spec_dy;
use crate::mover::spec_ray;
use crate::mover::spec_reward;
use crate::mover::spec_sensed_d2s;
use crate::mover::spec_sensor_d2s;
use crate::mover::spec_sensor_angle;
use crate::mover::view_pt;
use crate::sensor::spec_encoded;
use crate::rng::RoverRng;
use crate::rng::draw_below;
use crate::rng::lcg_iter;
use crate::rng::spec_lcg;
use vstd::seq_lib::lemma_multiset_commutative;

verus! {

/// The mathematical values of a sequence of brains.
pub open spec fn views(s: Seq<Brain>) -> Seq<BrainV> {
    s.map_values(|b: Brain| b@)
}

/// The fitness column of a population.
pub open spec fn fitnesses(s: Seq<BrainV>) -> Seq<u32> {
    s.map_values(|b: BrainV| b.fitness)
}

/// Sorted by fitness, best first.
pub open spec fn sorted_desc(s: Seq<BrainV>) -> bool {
    forall|i: int, j: int| 0 <= i <= j < s.len() ==> (#[trigger] s[i]).fitness >= (#[trigger] s[j]).fitness
}

/// The sum of the first `k` fitness values.
pub open spec fn prefix_fit(fits: Seq<u32>, k: int) -> int
    decreases k,
{
    if k <= 0 {
        0
    } else {
        prefix_fit(fits, k - 1) + fits[k - 1]
    }
}

/// The total fitness of a population.
pub open spec fn total_fit(fits: Seq<u32>) -> int {
    prefix_fit(fits, fits.len() as int)
}

/// Whether the cumulative share through slot `k` exceeds the drawn
/// fraction `g / 2^64`: the walk stops at the first such slot.
pub open spec fn qualified(fits: Seq<u32>, g: u64, k: int) -> bool {
    prefix_fit(fits, k + 1) * 0x1_0000_0000_0000_0000 > g * total_fit(fits)
}

/// The first qualified slot at or after `k`, or 0 when the walk runs
/// off the end.
pub open spec fn select_from(fits: Seq<u32>, g: u64, k: int) -> int
    decreases fits.len() - k,
{
    if k < 0 || k >= fits.len() {
        0
    } else if qualified(fits, g, k) {
        k
    } else {
        select_from(fits, g, k + 1)
    }
}

/// The slot that the roulette-wheel walk picks for draw `g`.
pub open spec fn spec_select(fits: Seq<u32>, g: u64) -> int {
    select_from(fits, g, 0)
}

/// The same brain with its fitness cleared for a new life.
pub open spec fn zero_fitness(b: BrainV) -> BrainV {
    BrainV { fitness: 0, xsign: b.xsign, iconn: b.iconn, nconn: b.nconn }
}

/// Moving one element from `s` to the end of `a` keeps the combined
/// contents.
proof fn lemma_extract<A>(a: Seq<A>, s: Seq<A>, i: int)
    requires
        0 <= i < s.len(),
    ensures
        (a.push(s[i]) + s.remove(i)).to_multiset() == (a + s).to_multiset(),
{
    broadcast use vstd::multiset::group_multiset_axioms;

    lemma_multiset_commutative(a.push(s[i]), s.remove(i));
    lemma_multiset_commutative(a, s);
    a.to_multiset_ensures();
    s.to_multiset_ensures();
    assert((a.push(s[i]) + s.remove(i)).to_multiset() =~= (a + s).to_multiset());
}

/// Removing an element commutes with taking views.
proof fn lemma_views_remove(s: Seq<Brain>, i: int)
    requires
        0 <= i < s.len(),
    ensures
        views(s.remove(i)) == views(s).remove(i),
{
    assert(views(s.remove(i)) =~= views(s).remove(i));
}

/// Pushing an element commutes with taking views.
proof fn lemma_views_push(s: Seq<Brain>, b: Brain)
    ensures
        views(s.push(b)) == views(s).push(b@),
{
    assert(views(s.push(b)) =~= views(s).push(b@));
}

/// Sorts the population by fitness, best first, by repeatedly moving a
/// highest-fitness brain of the rest to the end of the sorted part.
/// The result holds exactly the brains that went in.
pub fn sort_brains(v: &mut Vec<Brain>)
    ensures
        final(v)@.len() == old(v)@.len(),
        sorted_desc(views(final(v)@)),
        views(final(v)@).to_multiset() == views(old(v)@).to_multiset(),
{
    let ghost orig = views(old(v)@);
    let mut src: Vec<Brain> = Vec::new();
    core::mem::swap(v, &mut src);
    let mut out: Vec<Brain> = Vec::new();
    proof {
        assert(views(out@) + views(src@) =~= orig);
    }
    while src.len() > 0
        invariant
            out@.len() + src@.len() == orig.len(),
            (views(out@) + views(src@)).to_multiset() == orig.to_multiset(),
            sorted_desc(views(out@)),
            forall|i: int, j: int|
                0 <= i < out@.len() && 0 <= j < src@.len() ==> (#[trigger] views(out@)[i]).fitness
                    >= (#[trigger] views(src@)[j]).fitness,
        decreases src@.len(),
    {
        let mut imax: usize = 0;
        let mut j: usize = 1;
        while j < src.len()
            invariant
                imax < j || (j == 1 && imax == 0),
                imax < src@.len(),
                j <= src@.len(),
                src@.len() > 0,
                forall|m: int| 0 <= m < j ==> src@[imax as int].fitness >= (#[trigger] src@[m]).fitness,
            decreases src@.len() - j,
        {
            if src[j].fitness > src[imax].fitness {
                imax = j;
            }
            j = j + 1;
        }
        let ghost pre_out = out@;
        let ghost pre_src = src@;
        let b = src.remove(imax);
        out.push(b);
        proof {
            lemma_views_remove(pre_src, imax as int);
            lemma_views_push(pre_out, b);
            lemma_extract(views(pre_out), views(pre_src), imax as int);
            assert(views(out@) + views(src@) =~= views(pre_out).push(views(pre_src)[imax as int])
                + views(pre_src).remove(imax as int));
            assert(views(pre_out) + views(pre_src) =~= pre_out.map_values(|x: Brain| x@)
                + pre_src.map_values(|x: Brain| x@));
        }
    }
    *v = out;
}

/// The total fitness of the population, summed exactly.
pub fn sum_fitness(brains: &Vec<Brain>) -> (r: u64)
    requires
        brains@.len() <= NUM_BRAINS,
    ensures
        r as int == total_fit(fitnesses(views(brains@))),
        r < 0x40_0000_0000,
{
    let ghost fits = fitnesses(views(brains@));
    let mut sum: u64 = 0;
    let mut i: usize = 0;
    while i < brains.len()
        invariant
            i <= brains@.len(),
            brains@.len() <= NUM_BRAINS,
            fits == fitnesses(views(brains@)),
            sum as int == prefix_fit(fits, i as int),
            sum <= i * 0x1_0000_0000,
        decreases brains@.len() - i,
    {
        sum = sum + brains[i].fitness as u64;
        i = i + 1;
    }
    sum
}

/// Walks the fitness-sorted population, accumulating each slot's exact
/// share of the total fitness, and returns the first slot whose
/// cumulative share exceeds the drawn fraction `g / 2^64`; slot 0 if
/// the walk runs off the end.
pub fn select_index(brains: &Vec<Brain>, goal: u64) -> (r: usize)
    requires
        0 < brains@.len() <= NUM_BRAINS,
    ensures
        r as int == spec_select(fitnesses(views(brains@)), goal),
        r < brains@.len(),
{
    let ghost fits = fitnesses(views(brains@));
    let sum = sum_fitness(brains);
    let mut cum: u64 = 0;
    let mut ix: usize = 0;
    while ix < brains.len()
        invariant
            ix <= brains@.len(),
            0 < brains@.len() <= NUM_BRAINS,
            fits == fitnesses(views(brains@)),
            sum as int == total_fit(fits),
            sum < 0x40_0000_0000,
            cum as int == prefix_fit(fits, ix as int),
            cum <= sum,
            select_from(fits, goal, 0) == select_from(fits, goal, ix as int),
        decreases brains@.len() - ix,
    {
        cum = cum + brains[ix].fitness as u64;
        proof {
            lemma_prefix_le_total(fits, ix as int + 1);
            lemma_mul_le(
                cum as int,
                0x1_0000_0000_0000_0000,
                0x40_0000_0000,
                0x1_0000_0000_0000_0000,
            );
            lemma_mul_le(goal as int, sum as int, 0x1_0000_0000_0000_0000 - 1, 0x40_0000_0000);
        }
        if (cum as u128) * 0x1_0000_0000_0000_0000u128 > (goal as u128) * (sum as u128) {
            return ix;
        }
        ix = ix + 1;
    }
    0
}

/// Replacing one element commutes with taking views.
proof fn lemma_views_update(s: Seq<Brain>, i: int, b: Brain)
    requires
        0 <= i < s.len(),
    ensures
        views(s.update(i, b)) == views(s).update(i, b@),
{
    assert(views(s.update(i, b)) =~= views(s).update(i, b@));
}

/// A population with the same contents as an all-well-formed one is
/// all well-formed.
proof fn lemma_multiset_wf(a: Seq<BrainV>, b: Seq<BrainV>)
    requires
        a.to_multiset() == b.to_multiset(),
        forall|i: int| 0 <= i < a.len() ==> (#[trigger] a[i]).wf(),
    ensures
        forall|j: int| 0 <= j < b.len() ==> (#[trigger] b[j]).wf(),
{
    a.to_multiset_ensures();
    b.to_multiset_ensures();
    assert forall|j: int| 0 <= j < b.len() implies (#[trigger] b[j]).wf() by {
        assert(b.contains(b[j]));
        assert(b.to_multiset().count(b[j]) > 0);
        assert(a.contains(b[j]));
        let i = choose|i: int| 0 <= i < a.len() && a[i] == b[j];
        assert(a[i].wf());
    }
}

/// The whole generation boundary, as a relation between the rover
/// before it (its population `pre_pop`, finished brain `pre_active`,
/// active slot `pre_index`), the completed-generation count `epochs`,
/// the stream state `s0`, and the rover `post` and stream state
/// `s_end` after it.  `sorted` is the fitness-sorted population the
/// steady state worked on (empty in the bootstrap phase).  Kept opaque
/// so that callers passing the relation along do not unfold it.
#[verifier::opaque]
pub open spec fn spec_transition(
    pre_pop: Seq<BrainV>,
    pre_active: BrainV,
    pre_index: int,
    epochs: int,
    width: i32,
    height: i32,
    s0: u64,
    post: Mover,
    sorted: Seq<BrainV>,
    s_end: u64,
) -> bool {
    &&& post.isdead == 0
    &&& post.brain@.fitness == 0
    &&& post.multiplier == 1
    &&& post.position.0 as int == width as int / 2 - SENSOR_LENGTH + 10
    &&& post.position.1 as int == height as int / 2 - SENSOR_LENGTH
    &&& post.velocity_x as int == spec_dx(post.angle_index as int)
    &&& post.velocity_y as int == spec_dy(post.angle_index as int)
    &&& if epochs < NUM_BRAINS {
        let stored = pre_pop.update(pre_index, pre_active);
        &&& sorted == Seq::<BrainV>::empty()
        &&& views(post.brains@) == stored
        &&& post.brain_index == epochs
        &&& post.brain@ == zero_fitness(spec_mutated(stored[epochs], s0))
        &&& post.angle_index as int == draw_below(lcg_iter(s0, 3), NUM_ANGLES as u64)
        &&& s_end == lcg_iter(s0, 4)
    } else {
        let fits = fitnesses(sorted);
        let gi = if total_fit(fits) > 0 {
            spec_select(fits, spec_lcg(s0))
        } else {
            draw_below(s0, NUM_BRAINS as u64) as int
        };
        let pop2 = if pre_active.fitness >= sorted[NUM_BRAINS - 1].fitness {
            sorted.update(NUM_BRAINS - 1, pre_active)
        } else {
            sorted
        };
        &&& sorted.len() == NUM_BRAINS
        &&& sorted_desc(sorted)
        &&& sorted.to_multiset() == pre_pop.to_multiset()
        &&& views(post.brains@) == pop2
        &&& post.brain_index as int == gi
        &&& post.brain@ == zero_fitness(spec_mutated(pop2[gi], lcg_iter(s0, 1)))
        &&& post.angle_index as int == draw_below(lcg_iter(s0, 4), NUM_ANGLES as u64)
        &&& s_end == lcg_iter(s0, 5)
    }
}

/// The whole simulation: the rover with its population, the tick count
/// of the current life, and the number of completed generations.
pub struct Model {
    pub mover: Mover,
    pub loop_knt: usize,
    pub num_epochs: usize,
    pub width: i32,
    pub height: i32,
}

/// Whether the death check at the top of a tick will leave this rover
/// dead: it already was, it sits beyond a wall, or it sits on the
/// central obstacle.
pub open spec fn spec_would_die(m: Mover, rect: WorldRect) -> bool {
    ||| m.isdead == 1
    ||| m.position.0 > rect.right
    ||| m.position.0 < rect.left
    ||| m.position.1 < rect.bottom
    ||| m.position.1 > rect.top
    ||| in_rock(m.position.0 as int, m.position.1 as int)
}

impl Model {
    /// Structural soundness, plus: the tick count respects the life
    /// cap, and fitness never outruns the tick count (each tick awards
    /// at most one point).
    pub open spec fn wf(&self) -> bool {
        &&& self.mover.wf()
        &&& self.loop_knt <= MAX_LOOP_KNT
        &&& self.mover.brain@.fitness <= self.loop_knt
        &&& 0 <= self.width <= POS_LIMIT
        &&& 0 <= self.height <= POS_LIMIT
    }

    /// A fresh simulation in a `width` by `height` world: a rover at
    /// the configured start pose, no ticks yet, no generations done.
    pub fn new(width: i32, height: i32, rng: &mut RoverRng) -> (r: Model)
        requires
            0 <= width <= POS_LIMIT,
            0 <= height <= POS_LIMIT,
        ensures
            r.wf(),
            r.loop_knt == 0,
            r.num_epochs == 0,
            r.width == width,
            r.height == height,
            r.mover.position.0 as int == width as int / 2 - SENSOR_LENGTH + 10,
            r.mover.position.1 as int == height as int / 2 - SENSOR_LENGTH,
            r.mover.brain@.fitness == 0,
            r.mover.isdead == 0,
            r.mover.angle_index as int == draw_below(old(rng).state, NUM_ANGLES as u64),
            r.mover.old_angle_index as int == draw_below(
                lcg_iter(old(rng).state, 1),
                NUM_ANGLES as u64,
            ),
            r.mover.velocity_x as int == spec_dx(r.mover.angle_index as int),
            r.mover.velocity_y as int == spec_dy(r.mover.angle_index as int),
            r.mover.multiplier == 1,
            r.mover.brain_index as int == draw_below(
                lcg_iter(old(rng).state, 2),
                NUM_BRAINS as u64,
            ),
            r.mover.brains@.len() == NUM_BRAINS,
            forall|k: int| 0 <= k < NUM_BRAINS
                ==> (#[trigger] r.mover.brains@[k])@ == brain_new_at(
                    lcg_iter(old(rng).state, 3),
                    k as nat,
                ),
            r.mover.brain@ == brain_new_at(lcg_iter(old(rng).state, 3), NUM_BRAINS as nat),
            r.mover.sensor_data@ == Seq::new(crate::NUM_SENSORS as nat, |i: int| (0i32, 0i32)),
            r.mover.sensor_data_vector@ == Seq::new(NUM_NEURONS as nat, |i: int| 0u8),
            final(rng).state == pop_state(lcg_iter(old(rng).state, 3), (NUM_BRAINS + 1) as nat),
    {
        let start_x = width / 2 - SENSOR_LENGTH + 10;
        let start_y = height / 2 - SENSOR_LENGTH;
        let mover = Mover::new(start_x, start_y, rng);
        proof {
            reveal(crate::brain::brain_new_at);
        }
        Model { mover, loop_knt: 0, num_epochs: 0, width, height }
    }

    /// The generation boundary.  Bootstrap (fewer completed generations
    /// than slots): the finished brain goes back to its slot and the
    /// next slot in line becomes active.  Steady state: the population
    /// is sorted best-first, a slot is drawn with probability equal to
    /// its exact share of the total fitness, a finisher at least as fit
    /// as the worst slot overwrites that slot before the hand-over, and
    /// the drawn slot (elite replacement included) becomes active.
    /// When every fitness is zero the share walk has no meaning, so the
    /// slot is drawn uniformly instead; either way one draw is spent.
    /// The new active brain is then mutated once, its fitness cleared,
    /// and the rover reset to the start pose with a random heading.
    ///
    /// Returns the finished life's terminal fitness and (as a ghost
    /// value) the sorted population the steady state worked on, empty
    /// in the bootstrap phase.
    pub fn generation_transition(&mut self, rng: &mut RoverRng) -> (r: (u32, Ghost<Seq<BrainV>>))
        requires
            old(self).mover.wf(),
            0 <= old(self).width <= POS_LIMIT,
            0 <= old(self).height <= POS_LIMIT,
            old(self).num_epochs < usize::MAX,
        ensures
            final(self).wf(),
            final(self).num_epochs == old(self).num_epochs + 1,
            final(self).loop_knt == 0,
            final(self).width == old(self).width,
            final(self).height == old(self).height,
            r.0 == old(self).mover.brain@.fitness,
            final(self).mover.old_angle_index == old(self).mover.old_angle_index,
            final(self).mover.sensor_data == old(self).mover.sensor_data,
            final(self).mover.sensor_data_vector == old(self).mover.sensor_data_vector,
            spec_transition(
                views(old(self).mover.brains@),
                old(self).mover.brain@,
                old(self).mover.brain_index as int,
                old(self).num_epochs as int,
                old(self).width,
                old(self).height,
                old(rng).state,
                final(self).mover,
                r.1@,
                final(rng).state,
            ),
    {
        let terminal = self.mover.brain.fitness;
        let ghost s0 = rng.state;
        let ghost pre = self.mover;
        let ghost sorted_views: Seq<BrainV>;

        if self.num_epochs < NUM_BRAINS {
            proof {
                sorted_views = Seq::<BrainV>::empty();
            }
            let finished = self.mover.brain.clone();
            let ghost pre_brains = self.mover.brains@;
            self.mover.brains.set(self.mover.brain_index, finished);
            proof {
                lemma_views_update(pre_brains, pre.brain_index as int, finished);
            }
            self.mover.brain_index = self.num_epochs;
            let next = self.mover.brains[self.mover.brain_index].clone();
            self.mover.brain = next;
            proof {
                assert forall|i: int| 0 <= i < self.mover.brains@.len() implies (
                #[trigger] self.mover.brains@[i]).wf() by {
                    if i == pre.brain_index as int {
                        assert(self.mover.brains@[i]@ == pre.brain@);
                    } else {
                        assert(self.mover.brains@[i] == pre.brains@[i]);
                    }
                }
            }
        } else {
            sort_brains(&mut self.mover.brains);
            proof {
                sorted_views = views(self.mover.brains@);
                lemma_multiset_wf(views(pre.brains@), sorted_views);
            }
            let sum = sum_fitness(&self.mover.brains);
            let goal_index: usize;
            if sum > 0 {
                let goal = rng.next_u64();
                goal_index = select_index(&self.mover.brains, goal);
            } else {
                goal_index = rng.random_below(NUM_BRAINS as u64) as usize;
            }
            proof {
                assert(lcg_iter(s0, 1) == spec_lcg(lcg_iter(s0, 0)));
            }
            if self.mover.brain.fitness >= self.mover.brains[NUM_BRAINS - 1].fitness {
                let elite = self.mover.brain.clone();
                let ghost pre_sorted = self.mover.brains@;
                self.mover.brains.set(NUM_BRAINS - 1, elite);
                proof {
                    lemma_views_update(pre_sorted, NUM_BRAINS - 1, elite);
                }
            }
            self.mover.brain_index = goal_index;
            proof {
                assert forall|i: int| 0 <= i < self.mover.brains@.len() implies (
                #[trigger] self.mover.brains@[i]).wf() by {
                    assert(views(self.mover.brains@)[i] == self.mover.brains@[i]@);
                    if i < sorted_views.len() && views(self.mover.brains@)[i] == sorted_views[i] {
                        assert(sorted_views[i].wf());
                    }
                }
            }
            let next = self.mover.brains[goal_index].clone();
            self.mover.brain = next;
        }

        self.loop_knt = 0;
        let ghost sm = rng.state;
        self.mover.mutate(rng);
        self.mover.reset_mover(self.width, self.height, rng);
        self.num_epochs = self.num_epochs + 1;
        proof {
            assert(lcg_iter(sm, 1) == spec_lcg(lcg_iter(sm, 0)));
            assert(lcg_iter(sm, 2) == spec_lcg(lcg_iter(sm, 1)));
            assert(lcg_iter(sm, 3) == spec_lcg(lcg_iter(sm, 2)));
            assert(lcg_iter(sm, 4) == spec_lcg(lcg_iter(sm, 3)));
            if old(self).num_epochs >= NUM_BRAINS {
                assert(lcg_iter(s0, 2) == spec_lcg(lcg_iter(s0, 1)));
                assert(lcg_iter(s0, 3) == spec_lcg(lcg_iter(s0, 2)));
                assert(lcg_iter(s0, 4) == spec_lcg(lcg_iter(s0, 3)));
                assert(lcg_iter(s0, 5) == spec_lcg(lcg_iter(s0, 4)));
            }
        }
        proof {
            crate::rng::lemma_lcg_iter_add(s0, 1, 3);
            reveal(spec_transition);
        }
        (terminal, Ghost(sorted_views))
    }

    /// One tick of the driver, in the order the frame loop uses: death
    /// check, then (if alive) sense, decide, move and count the tick,
    /// then a generation transition once the rover is dead or the life
    /// cap is passed.  Every branch is pinned: a live tick satisfies
    /// the whole `spec_alive_step` relation (ray-cast sensing, biased
    /// encoding, settling-window decision, heading turn, unit move,
    /// reward rule), and a boundary tick the whole `spec_transition`
    /// relation, chained through the intermediate state when the life
    /// cap ends a life that just moved.  Returns the finished life's
    /// terminal fitness when a generation boundary ran, `None` on a
    /// plain live tick.
    pub fn tick(&mut self, rect: WorldRect, rng: &mut RoverRng) -> (r: Option<u32>)
        requires
            old(self).wf(),
            rect.wf(),
            old(self).num_epochs < usize::MAX,
        ensures
            final(self).wf(),
            final(self).width == old(self).width,
            final(self).height == old(self).height,
            ({
                let m0 = old(self).mover;
                let s0 = old(rng).state;
                if !spec_would_die(m0, rect) {
                    if old(self).loop_knt + 1 <= MAX_LOOP_KNT {
                        &&& spec_alive_step(m0, rect, s0, final(self).mover, final(rng).state)
                        &&& r is None
                        &&& final(self).num_epochs == old(self).num_epochs
                        &&& final(self).loop_knt == old(self).loop_knt + 1
                        &&& final(self).mover.isdead == 0
                    } else {
                        &&& (exists|mid: Mover, s_mid: u64, sorted: Seq<BrainV>|
                            {
                                &&& spec_alive_step(m0, rect, s0, mid, s_mid)
                                &&& spec_transition(
                                    views(mid.brains@),
                                    mid.brain@,
                                    mid.brain_index as int,
                                    old(self).num_epochs as int,
                                    old(self).width,
                                    old(self).height,
                                    s_mid,
                                    final(self).mover,
                                    sorted,
                                    final(rng).state,
                                )
                                &&& r == Some(mid.brain@.fitness)
                            })
                        &&& final(self).num_epochs == old(self).num_epochs + 1
                        &&& final(self).loop_knt == 0
                    }
                } else {
                    &&& (exists|sorted: Seq<BrainV>|
                        spec_transition(
                            views(m0.brains@),
                            m0.brain@,
                            m0.brain_index as int,
                            old(self).num_epochs as int,
                            old(self).width,
                            old(self).height,
                            s0,
                            final(self).mover,
                            sorted,
                            final(rng).state,
                        ))
                    &&& r == Some(m0.brain@.fitness)
                    &&& final(self).num_epochs == old(self).num_epochs + 1
                    &&& final(self).loop_knt == 0
                    &&& final(self).mover.old_angle_index == m0.old_angle_index
                    &&& final(self).mover.sensor_data == m0.sensor_data
                    &&& final(self).mover.sensor_data_vector == m0.sensor_data_vector
                }
            }),
    {
        self.mover.check_dead(rect);
        proof {
            if self.mover.isdead == 0 {
                assert(self.mover == old(self).mover);
            }
        }
        if self.mover.isdead == 0 {
            self.mover.sense_decide_move(rect, rng);
            self.loop_knt = self.loop_knt + 1;
        }
        let ghost mid = self.mover;
        let ghost s_mid = rng.state;
        let mut result: Option<u32> = None;
        if self.mover.isdead == 1 || self.loop_knt > MAX_LOOP_KNT {
            let (terminal, sorted) = self.generation_transition(rng);
            result = Some(terminal);
            proof {
                if !spec_would_die(old(self).mover, rect) {
                    assert(spec_alive_step(
                        old(self).mover,
                        rect,
                        old(rng).state,
                        mid,
                        s_mid,
                    ) && spec_transition(
                        views(mid.brains@),
                        mid.brain@,
                        mid.brain_index as int,
                        old(self).num_epochs as int,
                        old(self).width,
                        old(self).height,
                        s_mid,
                        self.mover,
                        sorted@,
                        rng.state,
                    ));
                }
            }
        }
        result
    }
}

/// A prefix sum never exceeds the total.
proof fn lemma_prefix_le_total(fits: Seq<u32>, k: int)
    requires
        0 <= k <= fits.len(),
    ensures
        prefix_fit(fits, k) <= total_fit(fits),
        0 <= prefix_fit(fits, k),
    decreases fits.len() - k,
{
    lemma_prefix_nonneg(fits, k);
    if k < fits.len() {
        lemma_prefix_le_total(fits, k + 1);
    }
}

/// Prefix sums of fitness values are non-negative.
proof fn lemma_prefix_nonneg(fits: Seq<u32>, k: int)
    ensures
        0 <= prefix_fit(fits, k),
    decreases k,
{
    if k > 0 {
        lemma_prefix_nonneg(fits, k - 1);
    }
}

/// Prefix sums grow with their length.
proof fn lemma_prefix_monotone(fits: Seq<u32>, a: int, b: int)
    requires
        a <= b,
    ensures
        prefix_fit(fits, a) <= prefix_fit(fits, b),
    decreases b - a,
{
    if a < b {
        lemma_prefix_monotone(fits, a, b - 1);
    }
}

/// When `k` is the first qualified slot at or after `i`, the walk from
/// `i` stops exactly there.
proof fn lemma_select_from_found(fits: Seq<u32>, g: u64, i: int, k: int)
    requires
        0 <= i <= k < fits.len(),
        qualified(fits, g, k),
        forall|j: int| i <= j < k ==> !qualified(fits, g, j),
    ensures
        select_from(fits, g, i) == k,
    decreases k - i,
{
    if i < k {
        lemma_select_from_found(fits, g, i + 1, k);
    }
}

/// Some slot's cumulative interval holds `g * total`, scanning from a
/// slot whose prefix has not yet passed it.
proof fn lemma_find_interval(fits: Seq<u32>, g: u64, i: int)
    requires
        0 <= i < fits.len(),
        0 < total_fit(fits),
        prefix_fit(fits, i) * 0x1_0000_0000_0000_0000 <= g * total_fit(fits),
    ensures
        exists|m: int|
            i <= m < fits.len() && (#[trigger] prefix_fit(fits, m)) * 0x1_0000_0000_0000_0000
                <= g * total_fit(fits) < prefix_fit(fits, m + 1) * 0x1_0000_0000_0000_0000,
    decreases fits.len() - i,
{
    let total = total_fit(fits);
    if g * total < prefix_fit(fits, i + 1) * 0x1_0000_0000_0000_0000 {
        assert(prefix_fit(fits, i) * 0x1_0000_0000_0000_0000 <= g * total < prefix_fit(
            fits,
            i + 1,
        ) * 0x1_0000_0000_0000_0000);
    } else if i + 1 < fits.len() {
        lemma_find_interval(fits, g, i + 1);
    } else {
        assert(prefix_fit(fits, i + 1) == total);
        assert(g * total < 0x1_0000_0000_0000_0000 * total) by (nonlinear_arith)
            requires
                0 <= g < 0x1_0000_0000_0000_0000,
                0 < total,
        ;
        assert(false);
    }
}

/// Selection proportionality, made exact: with a positive total
/// fitness, the walk picks slot `k` exactly when the drawn fraction
/// `g / 2^64` lands in slot `k`'s cumulative-share interval — an
/// interval of width `fits[k] / total`, so each slot is drawn with
/// probability equal to its share of the total fitness.
pub proof fn lemma_selection_share(fits: Seq<u32>, g: u64, k: int)
    requires
        0 < total_fit(fits),
        0 <= k < fits.len(),
    ensures
        spec_select(fits, g) == k <==> (prefix_fit(fits, k) * 0x1_0000_0000_0000_0000 <= g
            * total_fit(fits) < prefix_fit(fits, k + 1) * 0x1_0000_0000_0000_0000),
{
    let total = total_fit(fits);
    let p64: int = 0x1_0000_0000_0000_0000;
    if prefix_fit(fits, k) * p64 <= g * total < prefix_fit(fits, k + 1) * p64 {
        assert forall|j: int| 0 <= j < k implies !qualified(fits, g, j) by {
            lemma_prefix_monotone(fits, j + 1, k);
        }
        lemma_select_from_found(fits, g, 0, k);
    }
    if spec_select(fits, g) == k {
        lemma_prefix_nonneg(fits, 0);
        assert(g * total >= 0) by (nonlinear_arith)
            requires
                0 <= g,
                0 < total,
        ;
        lemma_find_interval(fits, g, 0);
        let m = choose|m: int|
            0 <= m < fits.len() && (#[trigger] prefix_fit(fits, m)) * p64 <= g * total
                < prefix_fit(fits, m + 1) * p64;
        assert forall|j: int| 0 <= j < m implies !qualified(fits, g, j) by {
            lemma_prefix_monotone(fits, j + 1, m);
        }
        lemma_select_from_found(fits, g, 0, m);
        assert(m == k);
    }
}

/// Elitism: replacing the worst-ranked slot with a finisher at least
/// as fit keeps that finisher in the population, and removes one copy
/// of the displaced worst member (every copy, if it was unique).
pub proof fn lemma_elitism(sorted: Seq<BrainV>, active: BrainV)
    requires
        sorted.len() > 0,
        active.fitness >= sorted[sorted.len() - 1].fitness,
    ensures
        sorted.update(sorted.len() - 1, active).contains(active),
        active != sorted[sorted.len() - 1] ==> sorted.update(
            sorted.len() - 1,
            active,
        ).to_multiset().count(sorted[sorted.len() - 1]) == sorted.to_multiset().count(
            sorted[sorted.len() - 1],
        ) - 1,
{
    broadcast use vstd::multiset::group_multiset_axioms;

    let n = sorted.len() as int;
    let u = sorted.update(n - 1, active);
    assert(u[n - 1] == active);
    assert(u.contains(active));
    vstd::seq_lib::to_multiset_update(sorted, n - 1, active);
    sorted.to_multiset_ensures();
    assert(sorted.contains(sorted[n - 1]));
}

/// Bounded factors give a bounded product.
proof fn lemma_mul_le(a: int, b: int, ca: int, cb: int)
    requires
        0 <= a <= ca,
        0 <= b <= cb,
    ensures
        0 <= a * b <= ca * cb,
{
    assert(0 <= a * b && a * b <= ca * cb) by (nonlinear_arith)
        requires
            0 <= a <= ca,
            0 <= b <= cb,
    ;
}

} // verus!
