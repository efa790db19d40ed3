//! The spiking decision function.
//!
//! Given a brain and a binary input vector, `decide` runs a fixed
//! settling window of leaky integrate-and-fire iterations and returns a
//! steering decision together with the per-sensor firing counts.  The
//! whole computation is a pure function of the brain, the input vector
//! and the random-stream state, and its contract pins the result to the
//! spec-level model below.
//!
//! Two idiosyncrasies of the network are part of its definition and are
//! kept exactly: the accumulation step indexes both masks by the
//! postsynaptic neuron's own input and prior output (not the
//! presynaptic ones), and the group counters skip neurons 2 and 5.

use vstd::prelude::*;

use crate::NUM_NEURONS;
use crate::brain::Brain;
use crate::brain::BrainV;
use crate::brain::bits_wf;
use crate::rng::RoverRng;
use crate::rng::draw_below;
use crate::rng::draw_jitter;
use crate::rng::lcg_iter;
use crate::rng::spec_lcg;

verus! {

/// Iterations of the settling window run per decision.
pub const SETTLING_TIME: usize = 20;

/// Base firing threshold, jittered by a draw in `[-2, 2]` per test.
pub const FIRE_THRESHOLD: i32 = 3;

/// One steering decision: turn the compass heading one step left, keep
/// it, or turn it one step right.
#[derive(Clone, Copy, Debug, PartialEq, Eq, Structural)]
pub enum Steering {
    TurnLeft,
    GoStraight,
    TurnRight,
}

/// The input channels of the first `k` gates of neuron `n`'s input row:
/// `inps[n] * iconn[n][j]` summed over `j < k`.
pub open spec fn input_sum(b: BrainV, inps: Seq<u8>, n: int, k: int) -> int
    decreases k,
{
    if k <= 0 {
        0
    } else {
        input_sum(b, inps, n, k - 1) + inps[n] * b.iconn[n][k - 1]
    }
}

/// The membrane after folding the first `k` recurrent gates of neuron
/// `n` over starting value `m`: an excitatory link adds its
/// contribution, an inhibitory one subtracts it, clamped at zero.
pub open spec fn recur_fold(b: BrainV, out_n: u8, n: int, m: int, k: int) -> int
    decreases k,
{
    if k <= 0 {
        m
    } else {
        let prev = recur_fold(b, out_n, n, m, k - 1);
        let stuff = out_n * b.nconn[n][k - 1];
        if b.xsign[k - 1] > 0 {
            prev + stuff
        } else if stuff <= prev {
            prev - stuff
        } else {
            0
        }
    }
}

/// Neuron `n`'s membrane for one iteration, given the prior outputs:
/// zero while the neuron is refractory (it just fired), otherwise the
/// input channels plus the clamped recurrent contributions.
pub open spec fn memb_of(b: BrainV, inps: Seq<u8>, outs: Seq<u8>, n: int) -> int {
    if outs[n] == 0 {
        recur_fold(b, outs[n], n, input_sum(b, inps, n, NUM_NEURONS as int), NUM_NEURONS as int)
    } else {
        0
    }
}

/// Whether neuron `n` fires in the iteration whose jitter draws start at
/// stream state `se`: its membrane meets the jittered threshold.
pub open spec fn fires(b: BrainV, inps: Seq<u8>, outs: Seq<u8>, se: u64, n: int) -> bool {
    memb_of(b, inps, outs, n) >= FIRE_THRESHOLD + draw_jitter(lcg_iter(se, n as nat))
}

/// The output vector produced by one settling iteration.
pub open spec fn epoch_out(b: BrainV, inps: Seq<u8>, outs: Seq<u8>, se: u64) -> Seq<u8> {
    Seq::new(
        NUM_NEURONS as nat,
        |n: int| if fires(b, inps, outs, se, n) {
            1u8
        } else {
            0u8
        },
    )
}

/// The output vector after `e` settling iterations from all-silent
/// outputs, with jitter draws taken from the stream started at `s0`
/// (one draw per neuron per iteration).
pub open spec fn outputs_after(b: BrainV, inps: Seq<u8>, s0: u64, e: nat) -> Seq<u8>
    decreases e,
{
    if e == 0 {
        Seq::new(NUM_NEURONS as nat, |n: int| 0u8)
    } else {
        epoch_out(
            b,
            inps,
            outputs_after(b, inps, s0, (e - 1) as nat),
            lcg_iter(s0, ((e - 1) * NUM_NEURONS) as nat),
        )
    }
}

/// The three sensor-aligned firing counters after `e` iterations:
/// group 0 counts neurons 0 and 1, group 1 neurons 3 and 4, group 2
/// neurons 6 and 7; neurons 2 and 5 are counted nowhere.
pub open spec fn counts_after(b: BrainV, inps: Seq<u8>, s0: u64, e: nat) -> (int, int, int)
    decreases e,
{
    if e == 0 {
        (0, 0, 0)
    } else {
        let prev = counts_after(b, inps, s0, (e - 1) as nat);
        let o = outputs_after(b, inps, s0, e);
        (prev.0 + o[0] + o[1], prev.1 + o[3] + o[4], prev.2 + o[6] + o[7])
    }
}

/// The index of the minimal counter, scanned in ascending order with
/// non-strict comparison, so ties resolve to the highest index.
pub open spec fn min_scan(c: (int, int, int)) -> int {
    if c.2 <= c.0 && c.2 <= c.1 {
        2
    } else if c.1 <= c.0 {
        1
    } else {
        0
    }
}

/// The steering that a minimal group index maps to: the group aligned
/// with the left sensor turns left, the right one turns right.
pub open spec fn steer_of(k: int) -> Steering {
    if k == 0 {
        Steering::TurnLeft
    } else if k == 2 {
        Steering::TurnRight
    } else {
        Steering::GoStraight
    }
}

/// Whether the entries the anti-silence bias inspects are all zero:
/// the first `NUM_SENSORS` entries of the vector — one per sensor
/// count, so indices 0, 1 and 2, all of which lie in sensor 0's bit
/// group.
pub open spec fn silent(v: Seq<u8>) -> bool {
    v[0] == 0 && v[1] == 0 && v[2] == 0
}

/// The input vector after the anti-silence bias: a silent vector gets
/// one randomly chosen bit of the eight set to one.
pub open spec fn spec_biased(v: Seq<u8>, s: u64) -> Seq<u8> {
    if silent(v) {
        v.update(draw_below(s, NUM_NEURONS as u64) as int, 1u8)
    } else {
        v
    }
}

/// The stream state after the bias rule: it consumes one draw exactly
/// when the vector was silent.
pub open spec fn spec_bias_state(v: Seq<u8>, s: u64) -> u64 {
    if silent(v) {
        spec_lcg(s)
    } else {
        s
    }
}

/// The decision for a (biased) input vector and settle-stream state.
pub open spec fn spec_decision(b: BrainV, inps: Seq<u8>, s: u64) -> Steering {
    steer_of(min_scan(counts_after(b, inps, s, SETTLING_TIME as nat)))
}

/// Runs the settling window and picks a steering decision.
///
/// The bias rule runs first: a vector silent on the bits the decision
/// scan would otherwise ignore gets one random bit set (visible to the
/// caller through `inps`).  Then `SETTLING_TIME` iterations accumulate
/// the three group counters, and the minimal counter steers.  The
/// returned triple holds the final counters.  Everything, decision and
/// counters alike, is pinned to the spec model, so two calls with equal
/// brains, equal inputs and equal stream states return equal results.
pub fn decide(brain: &Brain, inps: &mut Vec<u8>, rng: &mut RoverRng) -> (r: (
    Steering,
    (u32, u32, u32),
))
    requires
        brain.wf(),
        bits_wf(old(inps)@, NUM_NEURONS as int),
    ensures
        final(inps)@ == spec_biased(old(inps)@, old(rng).state),
        bits_wf(final(inps)@, NUM_NEURONS as int),
        ({
            let s1 = spec_bias_state(old(inps)@, old(rng).state);
            let v1 = spec_biased(old(inps)@, old(rng).state);
            let c = counts_after(brain@, v1, s1, SETTLING_TIME as nat);
            &&& r.0 == spec_decision(brain@, v1, s1)
            &&& r.1.0 == c.0
            &&& r.1.1 == c.1
            &&& r.1.2 == c.2
            &&& final(rng).state == lcg_iter(s1, (SETTLING_TIME * NUM_NEURONS) as nat)
        }),
{
    let ghost v0 = inps@;
    let ghost sb = rng.state;

    // Anti-silence bias: never settle on an input the decision groups
    // would read as fully dark.
    let knt = inps[0] + inps[1] + inps[2];
    if knt == 0 {
        let ridx = rng.random_below(NUM_NEURONS as u64) as usize;
        inps.set(ridx, 1u8);
    }
    proof {
        assert(inps@ =~= spec_biased(v0, sb));
    }

    let ghost b = brain@;
    let ghost v1 = inps@;
    let ghost s0 = rng.state;

    let mut outps: Vec<u8> = Vec::new();
    for n in 0..NUM_NEURONS
        invariant
            outps@.len() == n,
            forall|k: int| 0 <= k < n ==> outps@[k] == 0u8,
    {
        outps.push(0u8);
    }
    proof {
        assert(outps@ =~= outputs_after(b, v1, s0, 0));
    }

    let mut fk0: u32 = 0;
    let mut fk1: u32 = 0;
    let mut fk2: u32 = 0;

    for epoch in 0..SETTLING_TIME
        invariant
            brain.wf(),
            brain@ == b,
            inps@ == v1,
            bits_wf(v1, NUM_NEURONS as int),
            rng.state == lcg_iter(s0, (epoch * NUM_NEURONS) as nat),
            outps@ == outputs_after(b, v1, s0, epoch as nat),
            bits_wf(outps@, NUM_NEURONS as int),
            fk0 == counts_after(b, v1, s0, epoch as nat).0,
            fk1 == counts_after(b, v1, s0, epoch as nat).1,
            fk2 == counts_after(b, v1, s0, epoch as nat).2,
            fk0 <= 2 * epoch,
            fk1 <= 2 * epoch,
            fk2 <= 2 * epoch,
    {
        let ghost se = rng.state;
        let mut temp: Vec<u8> = Vec::new();

        for n in 0..NUM_NEURONS
            invariant
                brain.wf(),
                brain@ == b,
                inps@ == v1,
                bits_wf(v1, NUM_NEURONS as int),
                bits_wf(outps@, NUM_NEURONS as int),
                rng.state == lcg_iter(se, n as nat),
                temp@.len() == n,
                forall|k: int| 0 <= k < n
                    ==> temp@[k] == (if fires(b, v1, outps@, se, k) {
                        1u8
                    } else {
                        0u8
                    }),
        {
            let mut memb: u32 = 0;
            if outps[n] == 0 {
                for j in 0..NUM_NEURONS
                    invariant
                        brain.wf(),
                        brain@ == b,
                        inps@ == v1,
                        bits_wf(v1, NUM_NEURONS as int),
                        n < NUM_NEURONS,
                        memb == input_sum(b, v1, n as int, j as int),
                        memb <= j,
                {
                    memb = memb + (inps[n] * brain.iconn[n][j]) as u32;
                }
                let ghost m_in = input_sum(b, v1, n as int, NUM_NEURONS as int);
                for j in 0..NUM_NEURONS
                    invariant
                        brain.wf(),
                        brain@ == b,
                        bits_wf(outps@, NUM_NEURONS as int),
                        n < NUM_NEURONS,
                        outps@[n as int] == 0u8,
                        memb == recur_fold(b, outps@[n as int], n as int, m_in, j as int),
                        memb <= NUM_NEURONS + j,
                        m_in <= NUM_NEURONS,
                {
                    let stuff = (outps[n] * brain.nconn[n][j]) as u32;
                    if brain.xsign[j] > 0 {
                        memb = memb + stuff;
                    }
                    if brain.xsign[j] == 0 {
                        if stuff <= memb {
                            memb = memb - stuff;
                        } else {
                            memb = 0;
                        }
                    }
                }
            }
            // The firing test; the post-test membrane reset and the
            // unit leak of the original model are unobservable, because
            // each iteration rebuilds every membrane from zero.
            let r = rng.random_jitter();
            if memb as i32 >= FIRE_THRESHOLD + r {
                temp.push(1u8);
            } else {
                temp.push(0u8);
            }
            proof {
                assert(memb == memb_of(b, v1, outps@, n as int));
            }
        }

        proof {
            assert(temp@ =~= epoch_out(b, v1, outps@, se));
        }
        fk0 = fk0 + (temp[0] + temp[1]) as u32;
        fk1 = fk1 + (temp[3] + temp[4]) as u32;
        fk2 = fk2 + (temp[6] + temp[7]) as u32;
        outps = temp;
        proof {
            assert(outps@ == outputs_after(b, v1, s0, (epoch + 1) as nat));
            crate::rng::lemma_lcg_iter_add(s0, (epoch * NUM_NEURONS) as nat, NUM_NEURONS as nat);
        }
    }

    // Scan the groups in ascending order; a non-strict comparison lets
    // the last minimal group win.
    let mut min_index: usize = 1;
    let mut min_value: u32 = 99;
    if fk0 <= min_value {
        min_value = fk0;
        min_index = 0;
    }
    if fk1 <= min_value {
        min_value = fk1;
        min_index = 1;
    }
    if fk2 <= min_value {
        min_value = fk2;
        min_index = 2;
    }
    proof {
        assert(min_index as int == min_scan(counts_after(b, v1, s0, SETTLING_TIME as nat)));
    }

    let steering = if min_index == 0 {
        Steering::TurnLeft
    } else if min_index == 2 {
        Steering::TurnRight
    } else {
        Steering::GoStraight
    };
    (steering, (fk0, fk1, fk2))
}

/// Two decisions from equal brains, equal input vectors and equal
/// stream states are the same decision with the same firing counts:
/// the model is a pure function of its three arguments.
pub proof fn lemma_decide_deterministic(
    b1: BrainV,
    b2: BrainV,
    v1: Seq<u8>,
    v2: Seq<u8>,
    s1: u64,
    s2: u64,
)
    requires
        b1 == b2,
        v1 == v2,
        s1 == s2,
    ensures
        spec_decision(b1, v1, s1) == spec_decision(b2, v2, s2),
        counts_after(b1, v1, s1, SETTLING_TIME as nat) == counts_after(
            b2,
            v2,
            s2,
            SETTLING_TIME as nat,
        ),
{
}

} // verus!
