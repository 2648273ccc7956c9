//! Deriving a pressure profile from a temperature profile.
//!
//! Each temperature interval gives a pressure interval whose closed form follows from the
//! shape of the temperature there. The interval that holds the reference altitude is anchored
//! on the reference pressure; from there the anchors spread outward, each interval taking the
//! pressure of its already derived neighbour at the boundary they share, so that the profile
//! is continuous by construction.
use vstd::prelude::*;
use crate::altitude::{ascending, interval_index, is_interval_of};

verus! {

/// The shape of temperature on one interval.
#[derive(Clone, Copy, Debug, PartialEq, Eq, Structural)]
pub enum TemperatureShape {
    /// A constant: gradient zero.
    Constant,
    /// A linear function with a nonzero gradient.
    Sloped,
    /// A cubic with three distinct real roots.
    CubicThreeRoots,
    /// A cubic with one real root and an irreducible quadratic factor.
    CubicOneRoot,
}

/// The closed form of pressure on one interval.
#[derive(Clone, Copy, Debug, PartialEq, Eq, Structural)]
pub enum PressureShape {
    /// `p0 * exp(lambda * (h - h0))`.
    Exponential,
    /// `p0 * (1 + a * (h - h0)) ^ e`.
    Power,
    /// A product of three power terms, one for each root of the temperature.
    TriplePower,
    /// A power term for the linear factor, one for the quadratic factor, and an exponential
    /// of an arctangent for the quadratic's complex roots.
    PowerWithAtan,
}

/// The closed form that integrating the hydrostatic equation gives for a temperature shape.
pub open spec fn pressure_shape_of(t: TemperatureShape) -> PressureShape {
    match t {
        TemperatureShape::Constant => PressureShape::Exponential,
        TemperatureShape::Sloped => PressureShape::Power,
        TemperatureShape::CubicThreeRoots => PressureShape::TriplePower,
        TemperatureShape::CubicOneRoot => PressureShape::PowerWithAtan,
    }
}

/// The closed form of pressure over an interval where temperature has the given shape.
pub fn pressure_shape(t: TemperatureShape) -> (r: PressureShape)
    ensures
        r == pressure_shape_of(t),
{
    match t {
        TemperatureShape::Constant => PressureShape::Exponential,
        TemperatureShape::Sloped => PressureShape::Power,
        TemperatureShape::CubicThreeRoots => PressureShape::TriplePower,
        TemperatureShape::CubicOneRoot => PressureShape::PowerWithAtan,
    }
}

/// How one interval of a pressure profile gets its anchor.
#[derive(Clone, Copy, Debug, PartialEq, Eq, Structural)]
pub enum PressureStep {
    /// The interval holds the reference altitude and takes the reference pressure.
    Start(usize),
    /// The interval takes the pressure of the interval above it at their shared boundary.
    FromAbove(usize),
    /// The interval takes the pressure of the interval below it at their shared boundary.
    FromBelow(usize),
}

/// The interval that a step anchors.
pub open spec fn step_interval(s: PressureStep) -> int {
    match s {
        PressureStep::Start(i) => i as int,
        PressureStep::FromAbove(i) => i as int,
        PressureStep::FromBelow(i) => i as int,
    }
}

/// The order in which the `n` intervals of a pressure profile are derived when the reference
/// altitude lies in interval `k`: `k` first, then the ones below it going down, then the ones
/// above it going up.
pub open spec fn pressure_steps(n: nat, k: int) -> Seq<PressureStep> {
    Seq::new(
        n,
        |t: int|
            if t == 0 {
                PressureStep::Start(k as usize)
            } else if t <= k {
                PressureStep::FromAbove((k - t) as usize)
            } else {
                PressureStep::FromBelow(t as usize)
            },
    )
}

/// The order in which the intervals of a pressure profile with the given interval ends are
/// derived, the reference pressure being given at altitude `h0`.
pub fn pressure_order(ends: &Vec<i64>, h0: i64) -> (r: Vec<PressureStep>)
    requires
        ascending(ends@),
        ends@.len() < usize::MAX,
    ensures
        r@.len() == ends@.len() + 1,
        r@[0] is Start,
        is_interval_of(ends@, h0 as int, step_interval(r@[0])),
        r@ == pressure_steps((ends@.len() + 1) as nat, step_interval(r@[0])),
{
    let k = interval_index(ends, h0);
    let n = ends.len() + 1;
    let mut steps: Vec<PressureStep> = Vec::new();
    steps.push(PressureStep::Start(k));
    let mut i: usize = k;
    while i > 0
        invariant
            i <= k,
            k < n,
            steps@ == pressure_steps(n as nat, k as int).subrange(0, (k - i + 1) as int),
        decreases i,
    {
        i = i - 1;
        steps.push(PressureStep::FromAbove(i));
        assert(steps@ =~= pressure_steps(n as nat, k as int).subrange(0, (k - i + 1) as int));
    }
    let mut j: usize = k + 1;
    while j < n
        invariant
            k < j <= n,
            steps@ == pressure_steps(n as nat, k as int).subrange(0, j as int),
        decreases n - j,
    {
        steps.push(PressureStep::FromBelow(j));
        assert(steps@ =~= pressure_steps(n as nat, k as int).subrange(0, j + 1));
        j = j + 1;
    }
    assert(steps@ =~= pressure_steps(n as nat, k as int));
    steps
}

/// Whether one of the first `before` steps anchors interval `i`.
pub open spec fn derived_before(steps: Seq<PressureStep>, i: int, before: int) -> bool {
    exists|u: int| 0 <= u < before && step_interval(steps[u]) == i
}

/// Pressure is continuous across every boundary by construction: every interval of the
/// profile is anchored exactly once, and every interval but the one holding the reference
/// altitude is anchored at a boundary it shares with a neighbour derived before it.
pub proof fn lemma_pressure_anchors_follow_neighbours(n: nat, k: int)
    requires
        0 <= k < n <= usize::MAX,
    ensures
        ({
            let steps = pressure_steps(n, k);
            &&& forall|i: int| 0 <= i < n ==> #[trigger] derived_before(steps, i, n as int)
            &&& forall|t: int, u: int|
                0 <= t < n && 0 <= u < n && step_interval(#[trigger] steps[t]) == step_interval(
                    #[trigger] steps[u],
                ) ==> t == u
            &&& forall|t: int|
                1 <= t < n ==> match #[trigger] steps[t] {
                    PressureStep::FromAbove(j) => derived_before(steps, j + 1, t),
                    PressureStep::FromBelow(j) => derived_before(steps, j - 1, t),
                    PressureStep::Start(_) => false,
                }
        }),
{
    let steps = pressure_steps(n, k);
    assert forall|i: int| 0 <= i < n implies #[trigger] derived_before(steps, i, n as int) by {
        if i < k {
            assert(step_interval(steps[k - i]) == i);
        } else if i == k {
            assert(step_interval(steps[0]) == i);
        } else {
            assert(step_interval(steps[i]) == i);
        }
    }
    assert forall|t: int| 1 <= t < n implies match #[trigger] steps[t] {
        PressureStep::FromAbove(j) => derived_before(steps, j + 1, t),
        PressureStep::FromBelow(j) => derived_before(steps, j - 1, t),
        PressureStep::Start(_) => false,
    } by {
        if t <= k {
            assert(step_interval(steps[t - 1]) == k - t + 1);
        } else if t == k + 1 {
            assert(step_interval(steps[0]) == k);
        } else {
            assert(step_interval(steps[t - 1]) == t - 1);
        }
    }
}

} // verus!
