//! The evolvable unit: one spiking-network controller description.
//!
//! A brain holds, per neuron, an excitatory/inhibitory flag (`xsign`), a
//! row of input-channel gates (`iconn`, all ones and never mutated), a row
//! of recurrent-connection gates (`nconn`), and the fitness accumulated
//! over the current life.  Every matrix entry is a bit: `0` or `1`.

use vstd::prelude::*;

use crate::NUM_NEURONS;
use crate::rng::RoverRng;
use crate::rng::draw_below;
use crate::rng::lcg_iter;
use crate::rng::spec_lcg;

verus! {

/// A sequence of `n` bit entries (each `0` or `1`).
pub open spec fn bits_wf(s: Seq<u8>, n: int) -> bool {
    &&& s.len() == n
    &&& forall|i: int| 0 <= i < n ==> s[i] <= 1
}

/// An `n` by `n` matrix of bit entries.
pub open spec fn matrix_wf(m: Seq<Seq<u8>>, n: int) -> bool {
    &&& m.len() == n
    &&& forall|i: int| 0 <= i < n ==> bits_wf(#[trigger] m[i], n)
}

/// The mathematical value of a `Brain`.
pub ghost struct BrainV {
    pub fitness: u32,
    pub xsign: Seq<u8>,
    pub iconn: Seq<Seq<u8>>,
    pub nconn: Seq<Seq<u8>>,
}

impl BrainV {
    /// Sizes and bit-valuedness of every field.
    pub open spec fn wf(self) -> bool {
        &&& bits_wf(self.xsign, NUM_NEURONS as int)
        &&& matrix_wf(self.iconn, NUM_NEURONS as int)
        &&& matrix_wf(self.nconn, NUM_NEURONS as int)
    }
}

/// One controller genome: per-neuron polarity, input gates, recurrent
/// gates, and the fitness earned during the current life.
pub struct Brain {
    pub fitness: u32,
    pub xsign: Vec<u8>,
    pub iconn: Vec<Vec<u8>>,
    pub nconn: Vec<Vec<u8>>,
}

impl View for Brain {
    type V = BrainV;

    open spec fn view(&self) -> BrainV {
        BrainV {
            fitness: self.fitness,
            xsign: self.xsign@,
            iconn: self.iconn@.map_values(|row: Vec<u8>| row@),
            nconn: self.nconn@.map_values(|row: Vec<u8>| row@),
        }
    }
}

/// The polarity row of a freshly drawn brain: entry `i` is the `i`-th
/// bounded draw of the stream started at `s`.
pub open spec fn spec_new_xsign(s: u64) -> Seq<u8> {
    Seq::new(NUM_NEURONS as nat, |i: int| draw_below(lcg_iter(s, i as nat), 2) as u8)
}

/// The recurrent matrix of a freshly drawn brain: entries are drawn
/// row-major from the stream started at `s`.
pub open spec fn spec_new_nconn(s: u64) -> Seq<Seq<u8>> {
    Seq::new(
        NUM_NEURONS as nat,
        |i: int|
            Seq::new(
                NUM_NEURONS as nat,
                |j: int| draw_below(lcg_iter(s, (i * NUM_NEURONS + j) as nat), 2) as u8,
            ),
    )
}

/// The all-ones input matrix.
pub open spec fn spec_ones_matrix() -> Seq<Seq<u8>> {
    Seq::new(NUM_NEURONS as nat, |i: int| Seq::new(NUM_NEURONS as nat, |j: int| 1u8))
}

/// The brain produced by `Brain::new` from stream state `s`: zero fitness,
/// random polarities, all-ones input gates, random recurrent gates.
pub open spec fn spec_brain_new(s: u64) -> BrainV {
    BrainV {
        fitness: 0,
        xsign: spec_new_xsign(s),
        iconn: spec_ones_matrix(),
        nconn: spec_new_nconn(lcg_iter(s, NUM_NEURONS as nat)),
    }
}

/// The same brain after one motion update: one fitness point more if
/// the heading was held this tick, unchanged otherwise.
pub open spec fn spec_rewarded(b: BrainV, held: bool) -> BrainV {
    BrainV {
        fitness: if held {
            (b.fitness + 1) as u32
        } else {
            b.fitness
        },
        xsign: b.xsign,
        iconn: b.iconn,
        nconn: b.nconn,
    }
}

/// The opposite bit value.
pub open spec fn flip_bit(b: u8) -> u8 {
    if b == 0 {
        1u8
    } else {
        0u8
    }
}

/// The brain after one mutation from stream state `s`: one randomly
/// chosen polarity flag flips, and, independently, one randomly chosen
/// recurrent gate flips.  The input gates and the fitness are untouched.
pub open spec fn spec_mutated(b: BrainV, s: u64) -> BrainV {
    let i1 = draw_below(s, NUM_NEURONS as u64) as int;
    let s1 = spec_lcg(s);
    let i2 = draw_below(s1, NUM_NEURONS as u64) as int;
    let s2 = spec_lcg(s1);
    let j2 = draw_below(s2, NUM_NEURONS as u64) as int;
    BrainV {
        fitness: b.fitness,
        xsign: b.xsign.update(i1, flip_bit(b.xsign[i1])),
        iconn: b.iconn,
        nconn: b.nconn.update(i2, b.nconn[i2].update(j2, flip_bit(b.nconn[i2][j2]))),
    }
}

/// The stream state after drawing `m` whole brains from state `s`:
/// each brain consumes `NUM_NEURONS * (NUM_NEURONS + 1)` draws.
pub open spec fn pop_state(s: u64, m: nat) -> u64
    decreases m,
{
    if m == 0 {
        s
    } else {
        lcg_iter(pop_state(s, (m - 1) as nat), (NUM_NEURONS * (NUM_NEURONS + 1)) as nat)
    }
}

/// The brain that fills population slot `m` when a whole population is
/// drawn from stream state `s`.  Kept opaque so that reasoning about a
/// filled population never unfolds ten brains at once.
#[verifier::opaque]
pub open spec fn brain_new_at(s: u64, m: nat) -> BrainV {
    spec_brain_new(pop_state(s, m))
}

/// The number of positions where two equal-length rows differ.
pub open spec fn diff_count(a: Seq<u8>, b: Seq<u8>) -> int
    decreases a.len(),
{
    if a.len() == 0 {
        0
    } else {
        diff_count(a.drop_last(), b.drop_last()) + if a.last() != b.last() {
            1int
        } else {
            0int
        }
    }
}

/// The number of cells where two equal-shape matrices differ.
pub open spec fn matrix_diff_count(a: Seq<Seq<u8>>, b: Seq<Seq<u8>>) -> int
    decreases a.len(),
{
    if a.len() == 0 {
        0
    } else {
        matrix_diff_count(a.drop_last(), b.drop_last()) + diff_count(a.last(), b.last())
    }
}

/// A row differs from itself nowhere.
proof fn lemma_diff_count_self(a: Seq<u8>)
    ensures
        diff_count(a, a) == 0,
    decreases a.len(),
{
    if a.len() > 0 {
        lemma_diff_count_self(a.drop_last());
    }
}

/// Overwriting one entry with a different value changes a row in
/// exactly one position.
proof fn lemma_diff_count_update(a: Seq<u8>, i: int, v: u8)
    requires
        0 <= i < a.len(),
        a[i] != v,
    ensures
        diff_count(a, a.update(i, v)) == 1,
    decreases a.len(),
{
    let b = a.update(i, v);
    if i == a.len() - 1 {
        assert(b.drop_last() =~= a.drop_last());
        lemma_diff_count_self(a.drop_last());
    } else {
        assert(b.drop_last() =~= a.drop_last().update(i, v));
        lemma_diff_count_update(a.drop_last(), i, v);
    }
}

/// A matrix differs from itself nowhere.
proof fn lemma_matrix_diff_count_self(a: Seq<Seq<u8>>)
    ensures
        matrix_diff_count(a, a) == 0,
    decreases a.len(),
{
    if a.len() > 0 {
        lemma_matrix_diff_count_self(a.drop_last());
        lemma_diff_count_self(a.last());
    }
}

/// Overwriting one cell with a different value changes a matrix in
/// exactly one cell.
proof fn lemma_matrix_diff_count_update(a: Seq<Seq<u8>>, i: int, j: int, v: u8)
    requires
        0 <= i < a.len(),
        0 <= j < a[i].len(),
        a[i][j] != v,
    ensures
        matrix_diff_count(a, a.update(i, a[i].update(j, v))) == 1,
    decreases a.len(),
{
    let b = a.update(i, a[i].update(j, v));
    if i == a.len() - 1 {
        assert(b.drop_last() =~= a.drop_last());
        lemma_matrix_diff_count_self(a.drop_last());
        lemma_diff_count_update(a.last(), j, v);
        assert(b.last() == a.last().update(j, v));
    } else {
        assert(b.drop_last() =~= a.drop_last().update(i, a.drop_last()[i].update(j, v)));
        lemma_matrix_diff_count_update(a.drop_last(), i, j, v);
        assert(b.last() == a.last());
        lemma_diff_count_self(a.last());
    }
}

/// Mutation locality: one mutation flips exactly one polarity flag and
/// exactly one recurrent gate, and touches nothing else — whatever the
/// stream state.
pub proof fn lemma_mutation_locality(pre: BrainV, s: u64)
    requires
        pre.wf(),
    ensures
        diff_count(pre.xsign, spec_mutated(pre, s).xsign) == 1,
        matrix_diff_count(pre.nconn, spec_mutated(pre, s).nconn) == 1,
        spec_mutated(pre, s).iconn == pre.iconn,
        spec_mutated(pre, s).fitness == pre.fitness,
{
    let i1 = draw_below(s, NUM_NEURONS as u64) as int;
    let s1 = spec_lcg(s);
    let i2 = draw_below(s1, NUM_NEURONS as u64) as int;
    let s2 = spec_lcg(s1);
    let j2 = draw_below(s2, NUM_NEURONS as u64) as int;
    assert(flip_bit(pre.xsign[i1]) != pre.xsign[i1]);
    assert(flip_bit(pre.nconn[i2][j2]) != pre.nconn[i2][j2]);
    lemma_diff_count_update(pre.xsign, i1, flip_bit(pre.xsign[i1]));
    lemma_matrix_diff_count_update(pre.nconn, i2, j2, flip_bit(pre.nconn[i2][j2]));
}

/// A freshly drawn brain is well-formed for every stream state.
pub proof fn lemma_brain_new_wf(s: u64)
    ensures
        spec_brain_new(s).wf(),
{
    let b = spec_brain_new(s);
    assert(forall|i: int| 0 <= i < NUM_NEURONS ==> b.xsign[i] <= 1);
    assert(forall|i: int| 0 <= i < NUM_NEURONS ==> bits_wf(#[trigger] b.iconn[i], NUM_NEURONS as int));
    assert(forall|i: int| 0 <= i < NUM_NEURONS ==> bits_wf(#[trigger] b.nconn[i], NUM_NEURONS as int));
}

impl Brain {
    /// Sizes and bit-valuedness of every field.
    pub open spec fn wf(&self) -> bool {
        self@.wf()
    }

    /// A randomly initialized brain: polarities and recurrent gates are
    /// fair bit draws from the stream, input gates are all ones, fitness
    /// starts at zero.  Consumes one draw per polarity and one per
    /// recurrent gate.
    pub fn new(rng: &mut RoverRng) -> (r: Brain)
        ensures
            r@ == spec_brain_new(old(rng).state),
            r.wf(),
            final(rng).state == lcg_iter(old(rng).state, (NUM_NEURONS * (NUM_NEURONS + 1)) as nat),
    {
        let ghost s0 = rng.state;
        let fitness: u32 = 0;
        let mut xsign: Vec<u8> = Vec::new();
        for ix in 0..NUM_NEURONS
            invariant
                rng.state == lcg_iter(s0, ix as nat),
                xsign@.len() == ix,
                forall|k: int| 0 <= k < ix ==> xsign@[k] == draw_below(lcg_iter(s0, k as nat), 2),
        {
            let b = rng.random_below(2);
            xsign.push(b as u8);
        }
        proof {
            assert(xsign@ =~= spec_new_xsign(s0));
        }

        let mut iconn: Vec<Vec<u8>> = Vec::new();
        for ix in 0..NUM_NEURONS
            invariant
                iconn@.len() == ix,
                forall|k: int| 0 <= k < ix ==> (#[trigger] iconn@[k])@ =~= spec_ones_matrix()[k],
        {
            let mut row: Vec<u8> = Vec::new();
            for iy in 0..NUM_NEURONS
                invariant
                    row@.len() == iy,
                    forall|k: int| 0 <= k < iy ==> row@[k] == 1u8,
            {
                row.push(1u8);
            }
            proof {
                assert(row@ =~= spec_ones_matrix()[ix as int]);
            }
            iconn.push(row);
        }

        let ghost s8 = rng.state;
        let mut nconn: Vec<Vec<u8>> = Vec::new();
        for ix in 0..NUM_NEURONS
            invariant
                rng.state == lcg_iter(s8, (ix * NUM_NEURONS) as nat),
                nconn@.len() == ix,
                forall|k: int| 0 <= k < ix ==> (#[trigger] nconn@[k])@ =~= spec_new_nconn(s8)[k],
        {
            let mut row: Vec<u8> = Vec::new();
            for iy in 0..NUM_NEURONS
                invariant
                    rng.state == lcg_iter(s8, (ix * NUM_NEURONS + iy) as nat),
                    ix < NUM_NEURONS,
                    row@.len() == iy,
                    forall|k: int| 0 <= k < iy
                        ==> row@[k] == draw_below(
                            lcg_iter(s8, (ix * NUM_NEURONS + k) as nat),
                            2,
                        ),
            {
                let b = rng.random_below(2);
                row.push(b as u8);
            }
            proof {
                assert(row@ =~= spec_new_nconn(s8)[ix as int]);
            }
            nconn.push(row);
        }

        let r = Brain { fitness, xsign, iconn, nconn };
        proof {
            assert(r@.iconn =~= spec_ones_matrix());
            assert(r@.nconn =~= spec_new_nconn(s8));
            crate::rng::lemma_lcg_iter_add(
                s0,
                NUM_NEURONS as nat,
                (NUM_NEURONS * NUM_NEURONS) as nat,
            );
            assert(forall|i: int| 0 <= i < NUM_NEURONS ==> bits_wf(#[trigger] r@.nconn[i], NUM_NEURONS as int));
        }
        r
    }
}

impl Brain {
    /// Writes one polarity flag.
    pub fn set_xsign(&mut self, i: usize, v: u8)
        requires
            old(self).wf(),
            i < NUM_NEURONS,
            v <= 1,
        ensures
            final(self).wf(),
            final(self)@.xsign == old(self)@.xsign.update(i as int, v),
            final(self)@.fitness == old(self)@.fitness,
            final(self)@.iconn == old(self)@.iconn,
            final(self)@.nconn == old(self)@.nconn,
    {
        self.xsign.set(i, v);
        proof {
            assert(self@.xsign =~= old(self)@.xsign.update(i as int, v));
        }
    }

    /// Writes one recurrent gate.
    pub fn set_nconn(&mut self, i: usize, j: usize, v: u8)
        requires
            old(self).wf(),
            i < NUM_NEURONS,
            j < NUM_NEURONS,
            v <= 1,
        ensures
            final(self).wf(),
            final(self)@.nconn == old(self)@.nconn.update(
                i as int,
                old(self)@.nconn[i as int].update(j as int, v),
            ),
            final(self)@.fitness == old(self)@.fitness,
            final(self)@.xsign == old(self)@.xsign,
            final(self)@.iconn == old(self)@.iconn,
    {
        proof {
            assert(old(self)@.nconn[i as int] == self.nconn@[i as int]@);
        }
        let mut row = copy_bits(&self.nconn[i]);
        row.set(j, v);
        proof {
            assert(row@ =~= old(self)@.nconn[i as int].update(j as int, v));
        }
        self.nconn.set(i, row);
        proof {
            assert(self@.nconn =~= old(self)@.nconn.update(
                i as int,
                old(self)@.nconn[i as int].update(j as int, v),
            ));
        }
    }

    /// Reads one recurrent gate.
    pub fn get_nconn(&self, i: usize, j: usize) -> (r: u8)
        requires
            self.wf(),
            i < NUM_NEURONS,
            j < NUM_NEURONS,
        ensures
            r == self@.nconn[i as int][j as int],
            r <= 1,
    {
        proof {
            assert(self@.nconn[i as int] == self.nconn@[i as int]@);
            assert(bits_wf(self@.nconn[i as int], NUM_NEURONS as int));
        }
        self.nconn[i][j]
    }
}

impl Clone for Brain {
    /// An independent value copy: mutating the copy never touches the
    /// original.
    fn clone(&self) -> (r: Self)
        ensures
            r@ == self@,
    {
        let r = Brain {
            fitness: self.fitness,
            xsign: copy_bits(&self.xsign),
            iconn: copy_matrix(&self.iconn),
            nconn: copy_matrix(&self.nconn),
        };
        proof {
            assert(r@.iconn =~= self@.iconn);
            assert(r@.nconn =~= self@.nconn);
        }
        r
    }
}

/// An element-wise copy of a bit row.
pub(crate) fn copy_bits(v: &Vec<u8>) -> (r: Vec<u8>)
    ensures
        r@ == v@,
{
    let mut out: Vec<u8> = Vec::new();
    for i in 0..v.len()
        invariant
            out@.len() == i,
            forall|k: int| 0 <= k < i ==> out@[k] == v@[k],
    {
        out.push(v[i]);
    }
    proof {
        assert(out@ =~= v@);
    }
    out
}

/// An element-wise copy of a bit matrix.
fn copy_matrix(m: &Vec<Vec<u8>>) -> (r: Vec<Vec<u8>>)
    ensures
        r@.map_values(|row: Vec<u8>| row@) == m@.map_values(|row: Vec<u8>| row@),
        r@.len() == m@.len(),
{
    let mut out: Vec<Vec<u8>> = Vec::new();
    for i in 0..m.len()
        invariant
            out@.len() == i,
            forall|k: int| 0 <= k < i ==> (#[trigger] out@[k])@ == m@[k]@,
    {
        out.push(copy_bits(&m[i]));
    }
    proof {
        assert(out@.map_values(|row: Vec<u8>| row@) =~= m@.map_values(|row: Vec<u8>| row@));
    }
    out
}

} // verus!
