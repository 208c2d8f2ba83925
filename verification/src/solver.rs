//! The refinement loop of the fixed-point solver.

use vstd::prelude::*;

verus! {

/// IEEE 754 bit pattern of +0.0, the estimate of z before any refinement
/// step.
pub const ZERO_BITS: u64 = 0;

/// IEEE 754 bit pattern of +infinity, the delta before any refinement step.
pub const POS_INFINITY_BITS: u64 = 0x7FF0_0000_0000_0000;

/// The history of one run of the refinement loop, as the sequence of
/// (estimate, delta) bit-pattern pairs it visits: the first pair is the
/// initial state (+0.0, +infinity), every later pair is an outcome of
/// `step` applied to the estimate before it, the loop went on from a state
/// only because its delta exceeded the threshold, at most `max_iterations`
/// steps ran, and when the run stopped short of the cap, the delta of its
/// last state no longer exceeded the threshold.
pub open spec fn is_solver_run<FStep, FExceeds>(
    step: FStep,
    exceeds_threshold: FExceeds,
    max_iterations: u64,
    trace: Seq<(u64, u64)>,
) -> bool where FStep: Fn(u64) -> (u64, u64), FExceeds: Fn(u64) -> bool {
    &&& 1 <= trace.len() <= max_iterations + 1
    &&& trace[0] == (ZERO_BITS, POS_INFINITY_BITS)
    &&& forall|i: int|
        1 <= i < trace.len() ==> #[trigger] call_ensures(step, (trace[i - 1].0,), trace[i])
    &&& forall|i: int|
        0 <= i < trace.len() - 1 ==> #[trigger] call_ensures(
            exceeds_threshold,
            (trace[i].1,),
            true,
        )
    &&& trace.len() <= max_iterations ==> call_ensures(
        exceeds_threshold,
        (trace.last().1,),
        false,
    )
}

/// Drives the refinement loop of Shin's method on the bit patterns of
/// IEEE 754 doubles.
///
/// The two pieces of floating-point work are supplied by the caller:
///
/// * `step` takes the bit pattern of the previous estimate `z0` and returns
///   the bit patterns of the next estimate `z` and of the absolute change
///   `|z - z0|`.  One whole update reads `z0` alone, so every term of a
///   step sees the same previous estimate (a synchronous, Jacobi-style
///   update).
/// * `exceeds_threshold` compares a delta against the convergence
///   threshold.  An IEEE comparison involving a NaN returns false, so a
///   poisoned delta stops the loop at its next check rather than running to
///   the cap; non-finite estimates are reported as they are, never
///   intercepted.
///
/// The estimate starts at +0.0 and the delta at +infinity.  The loop runs
/// while the delta exceeds the threshold and fewer than `max_iterations`
/// steps have run.  The reported count is one more than the number of
/// steps that ran: the increment after the loop is a fixed part of the
/// contract, so a zero cap still reports one iteration with the initial
/// estimate and delta.  The count therefore never exceeds
/// `max_iterations + 1`, and the `decreases` clause of the loop shows that
/// the solver always terminates within the cap, whatever the closures
/// return.
pub fn optimise(
    step: impl Fn(u64) -> (u64, u64),
    exceeds_threshold: impl Fn(u64) -> bool,
    max_iterations: u64,
) -> (r: (u64, u64, u64))
    requires
        max_iterations < u64::MAX,
        forall|z0: u64| #[trigger] call_requires(step, (z0,)),
        forall|d: u64| #[trigger] call_requires(exceeds_threshold, (d,)),
    ensures
        exists|trace: Seq<(u64, u64)>|
            {
                &&& #[trigger] is_solver_run(step, exceeds_threshold, max_iterations, trace)
                &&& trace.len() == r.2
                &&& trace.last() == (r.0, r.1)
            },
        1 <= r.2 && r.2 <= max_iterations + 1,
        r.2 == 1 ==> r.0 == ZERO_BITS && r.1 == POS_INFINITY_BITS,
        max_iterations == 0 ==> r.0 == ZERO_BITS && r.1 == POS_INFINITY_BITS && r.2 == 1,
        r.2 <= max_iterations ==> call_ensures(exceeds_threshold, (r.1,), false),
        r.2 > 1 ==> exists|z0: u64| #[trigger] call_ensures(step, (z0,), (r.0, r.1)),
{
    let mut z: u64 = ZERO_BITS;
    let mut delta: u64 = POS_INFINITY_BITS;
    let mut iterations: u64 = 0;
    let ghost mut trace: Seq<(u64, u64)> = seq![(ZERO_BITS, POS_INFINITY_BITS)];
    let mut go: bool = exceeds_threshold(delta) && iterations < max_iterations;
    while go
        invariant
            max_iterations < u64::MAX,
            iterations <= max_iterations,
            forall|z0: u64| #[trigger] call_requires(step, (z0,)),
            forall|d: u64| #[trigger] call_requires(exceeds_threshold, (d,)),
            go ==> iterations < max_iterations,
            go ==> call_ensures(exceeds_threshold, (delta,), true),
            !go ==> iterations == max_iterations || call_ensures(
                exceeds_threshold,
                (delta,),
                false,
            ),
            iterations == 0 ==> z == ZERO_BITS && delta == POS_INFINITY_BITS,
            trace.len() == iterations + 1,
            trace[0] == (ZERO_BITS, POS_INFINITY_BITS),
            trace.last() == (z, delta),
            forall|i: int|
                1 <= i < trace.len() ==> #[trigger] call_ensures(step, (trace[i - 1].0,), trace[i]),
            forall|i: int|
                0 <= i < trace.len() - 1 ==> #[trigger] call_ensures(
                    exceeds_threshold,
                    (trace[i].1,),
                    true,
                ),
        decreases max_iterations - iterations,
    {
        let z0: u64 = z;
        let stepped: (u64, u64) = step(z0);
        z = stepped.0;
        delta = stepped.1;
        iterations = iterations + 1;
        proof {
            let prev = trace;
            trace = trace.push((z, delta));
            assert(trace.last() == (z, delta));
            assert forall|i: int|
                1 <= i < trace.len() implies #[trigger] call_ensures(
                step,
                (trace[i - 1].0,),
                trace[i],
            ) by {
                if i < trace.len() - 1 {
                    assert(trace[i] == prev[i]);
                    assert(trace[i - 1] == prev[i - 1]);
                } else {
                    assert(trace[i - 1] == prev.last());
                    assert(call_ensures(step, (z0,), (z, delta)));
                }
            };
            assert forall|i: int|
                0 <= i < trace.len() - 1 implies #[trigger] call_ensures(
                exceeds_threshold,
                (trace[i].1,),
                true,
            ) by {
                if i < trace.len() - 2 {
                    assert(trace[i] == prev[i]);
                } else {
                    assert(trace[i] == prev.last());
                }
            };
        }
        go = exceeds_threshold(delta) && iterations < max_iterations;
    }
    let reported: (u64, u64, u64) = (z, delta, iterations + 1);
    proof {
        assert(is_solver_run(step, exceeds_threshold, max_iterations, trace));
        if iterations > 0 {
            let k = trace.len() - 1;
            assert(call_ensures(step, (trace[k - 1].0,), trace[k]));
            assert(trace[k] == (reported.0, reported.1));
            assert(call_ensures(step, (trace[k - 1].0,), (reported.0, reported.1)));
        }
    }
    reported
}

/// Two runs of the loop agree state by state up to the length of the
/// shorter one, when each closure's contract admits a single outcome per
/// argument.
proof fn lemma_run_prefix_agrees<FStep, FExceeds>(
    step: FStep,
    exceeds_threshold: FExceeds,
    max_iterations: u64,
    t1: Seq<(u64, u64)>,
    t2: Seq<(u64, u64)>,
    i: int,
) where FStep: Fn(u64) -> (u64, u64), FExceeds: Fn(u64) -> bool
    requires
        forall|z0: u64, a: (u64, u64), b: (u64, u64)|
            (#[trigger] call_ensures(step, (z0,), a)) && (#[trigger] call_ensures(
                step,
                (z0,),
                b,
            )) ==> a == b,
        is_solver_run(step, exceeds_threshold, max_iterations, t1),
        is_solver_run(step, exceeds_threshold, max_iterations, t2),
        0 <= i < t1.len(),
        i < t2.len(),
    ensures
        t1[i] == t2[i],
    decreases i,
{
    if i > 0 {
        lemma_run_prefix_agrees(step, exceeds_threshold, max_iterations, t1, t2, i - 1);
        assert(call_ensures(step, (t1[i - 1].0,), t1[i]));
        assert(call_ensures(step, (t2[i - 1].0,), t2[i]));
    }
}

/// Determinism of the solver: when each closure's contract admits a single
/// outcome per argument — as it does for closures that compute a fixed
/// function of their argument, such as an IEEE 754 update and comparison —
/// any two reported triples that the loop's contract allows for the same
/// closures and the same cap are equal, bit for bit.
pub proof fn lemma_optimise_deterministic<FStep, FExceeds>(
    step: FStep,
    exceeds_threshold: FExceeds,
    max_iterations: u64,
    r1: (u64, u64, u64),
    r2: (u64, u64, u64),
) where FStep: Fn(u64) -> (u64, u64), FExceeds: Fn(u64) -> bool
    requires
        forall|z0: u64, a: (u64, u64), b: (u64, u64)|
            (#[trigger] call_ensures(step, (z0,), a)) && (#[trigger] call_ensures(
                step,
                (z0,),
                b,
            )) ==> a == b,
        forall|d: u64, a: bool, b: bool|
            (#[trigger] call_ensures(exceeds_threshold, (d,), a)) && (#[trigger] call_ensures(
                exceeds_threshold,
                (d,),
                b,
            )) ==> a == b,
        exists|trace: Seq<(u64, u64)>|
            {
                &&& #[trigger] is_solver_run(step, exceeds_threshold, max_iterations, trace)
                &&& trace.len() == r1.2
                &&& trace.last() == (r1.0, r1.1)
            },
        exists|trace: Seq<(u64, u64)>|
            {
                &&& #[trigger] is_solver_run(step, exceeds_threshold, max_iterations, trace)
                &&& trace.len() == r2.2
                &&& trace.last() == (r2.0, r2.1)
            },
    ensures
        r1 == r2,
{
    let t1 = choose|trace: Seq<(u64, u64)>|
        {
            &&& #[trigger] is_solver_run(step, exceeds_threshold, max_iterations, trace)
            &&& trace.len() == r1.2
            &&& trace.last() == (r1.0, r1.1)
        };
    let t2 = choose|trace: Seq<(u64, u64)>|
        {
            &&& #[trigger] is_solver_run(step, exceeds_threshold, max_iterations, trace)
            &&& trace.len() == r2.2
            &&& trace.last() == (r2.0, r2.1)
        };
    if t1.len() < t2.len() {
        let k = t1.len();
        lemma_run_prefix_agrees(step, exceeds_threshold, max_iterations, t1, t2, k - 1);
        assert(call_ensures(exceeds_threshold, (t1.last().1,), false));
        assert(call_ensures(exceeds_threshold, (t2[k - 1].1,), true));
        assert(false);
    }
    if t2.len() < t1.len() {
        let k = t2.len();
        lemma_run_prefix_agrees(step, exceeds_threshold, max_iterations, t2, t1, k - 1);
        assert(call_ensures(exceeds_threshold, (t2.last().1,), false));
        assert(call_ensures(exceeds_threshold, (t1[k - 1].1,), true));
        assert(false);
    }
    lemma_run_prefix_agrees(step, exceeds_threshold, max_iterations, t1, t2, t1.len() - 1);
    assert(r1.2 == r2.2);
    assert((r1.0, r1.1) == (r2.0, r2.1));
}

} // verus!
