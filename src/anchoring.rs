//! Anchoring the intervals of a profile to absolute values.
//!
//! A cubic interval, and a sloped interval that continues a spline, know their values. A
//! gradient interval knows only its slope, unless the profile's fixed value lies in it. The
//! plan finds the lowest interval that knows its value, lets every interval below it take
//! its value from the one above, and every interval above it that knows nothing take its
//! value from the one below. Wherever two intervals that each know their value meet, and
//! wherever the fixed value lies in a cubic interval, the plan asks for a consistency check.
use vstd::prelude::*;
use crate::altitude::{holds, is_interval_of, strictly_ascending};
use crate::lowering::{
    clip, clip_key, cubic_pieces, end_keys, end_of, keeps_cubic, leads, lower_segments, lowered,
    pieces_upto, segment_pieces, spline_pieces, start_of, trails, valid_segments, Boundary,
    Layout, Piece, PieceKind, SegmentShape,
};

verus! {

/// Where an interval has its absolute value from before any propagation.
#[derive(Clone, Copy, Debug, PartialEq, Eq, Structural)]
pub enum FixedPoint {
    /// Nowhere: it takes its value from a neighbour.
    Unanchored,
    /// From the spline of the given segment.
    Spline(usize),
    /// From the profile's fixed value, which lies in it.
    FixedTemp,
}

/// A neighbour of an interval.
#[derive(Clone, Copy, Debug, PartialEq, Eq, Structural)]
pub enum Side {
    Below,
    Above,
}

/// One step of anchoring a profile. The steps are carried out in order; a check that fails
/// ends the work with a conflict.
#[derive(Clone, Copy, Debug, PartialEq, Eq, Structural)]
pub enum AnchorStep {
    /// Interval `index` takes as its fixed point the value of the neighbour on side `from`
    /// at the boundary they share.
    Propagate { index: usize, from: Side },
    /// The fixed value lies in cubic interval `index`: the two must agree.
    CheckFixed { index: usize },
    /// Interval `index` and its neighbour on `side`, each anchored on its own, must agree
    /// at the boundary they share.
    Check { index: usize, side: Side },
}

/// Why a profile cannot be anchored.
#[derive(Clone, Copy, Debug, PartialEq, Eq, Structural)]
pub enum PlanError {
    /// No interval knows an absolute value: the definition leaves the profile undetermined.
    NoFixedPoint,
}

/// The plan for anchoring a laid-out profile: where each interval has its own value from,
/// and the steps that anchor the rest.
#[derive(Clone, Debug)]
pub struct Anchoring {
    pub anchors: Vec<FixedPoint>,
    pub steps: Vec<AnchorStep>,
}

/// Whether interval `i` of a profile holds the fixed value's altitude.
pub open spec fn holds_fixed(ends: Seq<i64>, i: int, fixed_at: Option<i64>) -> bool {
    match fixed_at {
        Some(x) => holds(ends, i, x as int),
        None => false,
    }
}

/// Where interval `i` has its own value from.
pub open spec fn own_fixed_point(piece: Piece, ends: Seq<i64>, i: int, fixed_at: Option<i64>) -> FixedPoint {
    match piece.kind {
        PieceKind::Cubic(_) => FixedPoint::Spline(piece.segment),
        PieceKind::Gradient => if holds_fixed(ends, i, fixed_at) {
            FixedPoint::FixedTemp
        } else {
            FixedPoint::Unanchored
        },
        _ => if holds_fixed(ends, i, fixed_at) {
            FixedPoint::FixedTemp
        } else {
            FixedPoint::Spline(piece.segment)
        },
    }
}

/// Where each interval of a profile has its own value from.
pub open spec fn own_fixed_points(pieces: Seq<Piece>, ends: Seq<i64>, fixed_at: Option<i64>) -> Seq<FixedPoint> {
    Seq::new(pieces.len(), |i: int| own_fixed_point(pieces[i], ends, i, fixed_at))
}

/// For each interval, whether it is a cubic one that holds the fixed value.
pub open spec fn fixed_checks(pieces: Seq<Piece>, ends: Seq<i64>, fixed_at: Option<i64>) -> Seq<bool> {
    Seq::new(pieces.len(), |i: int| pieces[i].kind is Cubic && holds_fixed(ends, i, fixed_at))
}

/// Whether interval `i` has a value of its own.
pub open spec fn anchored(anchors: Seq<FixedPoint>, i: int) -> bool {
    anchors[i] != FixedPoint::Unanchored
}

/// Whether `a` is the lowest interval with a value of its own.
pub open spec fn first_anchored(anchors: Seq<FixedPoint>, a: int) -> bool {
    &&& 0 <= a < anchors.len()
    &&& anchored(anchors, a)
    &&& forall|j: int| 0 <= j < a ==> !anchored(anchors, j)
}

/// The steps that anchor the intervals below the lowest anchored one `a`, from the top
/// down, each from its neighbour above.
pub open spec fn steps_below(a: int) -> Seq<AnchorStep> {
    Seq::new(a as nat, |t: int| AnchorStep::Propagate { index: (a - 1 - t) as usize, from: Side::Above })
}

/// The steps of interval `i`, at or above the lowest anchored interval `a`.
pub open spec fn interval_steps(anchors: Seq<FixedPoint>, checks: Seq<bool>, a: int, i: int) -> Seq<AnchorStep> {
    if !anchored(anchors, i) {
        seq![AnchorStep::Propagate { index: i as usize, from: Side::Below }]
    } else {
        (if checks[i] {
            seq![AnchorStep::CheckFixed { index: i as usize }]
        } else {
            seq![]
        }) + (if i > a && !anchored(anchors, i - 1) {
            seq![AnchorStep::Check { index: i as usize, side: Side::Below }]
        } else {
            seq![]
        }) + (if i + 1 < anchors.len() && anchored(anchors, i + 1) {
            seq![AnchorStep::Check { index: i as usize, side: Side::Above }]
        } else {
            seq![]
        })
    }
}

/// The steps of intervals `a` up to, not including, `i`.
pub open spec fn steps_between(anchors: Seq<FixedPoint>, checks: Seq<bool>, a: int, i: int) -> Seq<AnchorStep>
    decreases i - a,
{
    if i <= a {
        seq![]
    } else {
        steps_between(anchors, checks, a, i - 1) + interval_steps(anchors, checks, a, i - 1)
    }
}

/// The whole plan, given the lowest anchored interval `a`.
pub open spec fn planned_steps(anchors: Seq<FixedPoint>, checks: Seq<bool>, a: int) -> Seq<AnchorStep> {
    steps_below(a) + steps_between(anchors, checks, a, anchors.len() as int)
}

/// The steps that anchor a profile, given where each interval has its own value from and
/// which intervals are cubic ones holding the fixed value; `NoFixedPoint` when no interval
/// has a value of its own.
pub fn plan_steps(anchors: &Vec<FixedPoint>, checks: &Vec<bool>) -> (r: Result<Vec<AnchorStep>, PlanError>)
    requires
        anchors@.len() == checks@.len(),
    ensures
        r is Err <==> forall|i: int| 0 <= i < anchors@.len() ==> !anchored(anchors@, i),
        match r {
            Ok(steps) => exists|a: int|
                first_anchored(anchors@, a) && steps@ == planned_steps(anchors@, checks@, a),
            Err(e) => e == PlanError::NoFixedPoint,
        },
{
    let n = anchors.len();
    let mut a: usize = 0;
    while a < n && anchors[a] == FixedPoint::Unanchored
        invariant
            a <= n,
            n == anchors@.len(),
            forall|j: int| 0 <= j < a ==> !anchored(anchors@, j),
        decreases n - a,
    {
        a = a + 1;
    }
    if a == n {
        return Err(PlanError::NoFixedPoint);
    }
    assert(first_anchored(anchors@, a as int));
    let mut steps: Vec<AnchorStep> = Vec::new();
    let mut k: usize = a;
    while k > 0
        invariant
            k <= a,
            steps@ == Seq::new((a - k) as nat, |t: int| AnchorStep::Propagate { index: (a - 1 - t) as usize, from: Side::Above }),
        decreases k,
    {
        k = k - 1;
        steps.push(AnchorStep::Propagate { index: k, from: Side::Above });
        assert(steps@ =~= Seq::new((a - k) as nat, |t: int| AnchorStep::Propagate { index: (a - 1 - t) as usize, from: Side::Above }));
    }
    assert(steps@ =~= steps_below(a as int) + steps_between(anchors@, checks@, a as int, a as int));
    let mut i: usize = a;
    while i < n
        invariant
            a <= i <= n,
            n == anchors@.len(),
            n == checks@.len(),
            steps@ == steps_below(a as int) + steps_between(anchors@, checks@, a as int, i as int),
        decreases n - i,
    {
        let ghost prev = steps@;
        if anchors[i] == FixedPoint::Unanchored {
            steps.push(AnchorStep::Propagate { index: i, from: Side::Below });
        } else {
            if checks[i] {
                steps.push(AnchorStep::CheckFixed { index: i });
            }
            if i > a && anchors[i - 1] == FixedPoint::Unanchored {
                steps.push(AnchorStep::Check { index: i, side: Side::Below });
            }
            if i + 1 < n && anchors[i + 1] != FixedPoint::Unanchored {
                steps.push(AnchorStep::Check { index: i, side: Side::Above });
            }
        }
        assert(steps@ =~= prev + interval_steps(anchors@, checks@, a as int, i as int));
        i = i + 1;
    }
    Ok(steps)
}


/// The plan that anchors a laid-out profile whose fixed value, if any, lies at `fixed_at`.
pub fn plan_anchoring(layout: &Layout, fixed_at: Option<i64>) -> (r: Result<Anchoring, PlanError>)
    requires
        layout.pieces@.len() == layout.ends@.len() + 1,
    ensures
        ({
            let anchors = own_fixed_points(layout.pieces@, layout.ends@, fixed_at);
            let checks = fixed_checks(layout.pieces@, layout.ends@, fixed_at);
            &&& r is Err <==> forall|i: int| 0 <= i < anchors.len() ==> !anchored(anchors, i)
            &&& match r {
                Ok(plan) => plan.anchors@ == anchors && exists|a: int|
                    first_anchored(anchors, a) && plan.steps@ == planned_steps(anchors, checks, a),
                Err(e) => e == PlanError::NoFixedPoint,
            }
        }),
{
    let n = layout.pieces.len();
    let ghost pieces = layout.pieces@;
    let ghost ends = layout.ends@;
    let mut anchors: Vec<FixedPoint> = Vec::new();
    let mut checks: Vec<bool> = Vec::new();
    let mut i: usize = 0;
    while i < n
        invariant
            i <= n,
            n == pieces.len(),
            pieces == layout.pieces@,
            ends == layout.ends@,
            n == ends.len() + 1,
            anchors@ == own_fixed_points(pieces, ends, fixed_at).subrange(0, i as int),
            checks@ == fixed_checks(pieces, ends, fixed_at).subrange(0, i as int),
        decreases n - i,
    {
        let piece = layout.pieces[i];
        let holds_it = match fixed_at {
            Some(x) => (i == 0 || layout.ends[i - 1] <= x) && (i >= layout.ends.len() || x <= layout.ends[i]),
            None => false,
        };
        assert(holds_it == holds_fixed(ends, i as int, fixed_at));
        let fp = match piece.kind {
            PieceKind::Cubic(_) => FixedPoint::Spline(piece.segment),
            PieceKind::Gradient => if holds_it {
                FixedPoint::FixedTemp
            } else {
                FixedPoint::Unanchored
            },
            _ => if holds_it {
                FixedPoint::FixedTemp
            } else {
                FixedPoint::Spline(piece.segment)
            },
        };
        let is_cubic = match piece.kind {
            PieceKind::Cubic(_) => true,
            _ => false,
        };
        anchors.push(fp);
        checks.push(is_cubic && holds_it);
        assert(anchors@ =~= own_fixed_points(pieces, ends, fixed_at).subrange(0, i + 1));
        assert(checks@ =~= fixed_checks(pieces, ends, fixed_at).subrange(0, i + 1));
        i = i + 1;
    }
    assert(anchors@ =~= own_fixed_points(pieces, ends, fixed_at));
    assert(checks@ =~= fixed_checks(pieces, ends, fixed_at));
    match plan_steps(&anchors, &checks) {
        Ok(steps) => Ok(Anchoring { anchors, steps }),
        Err(e) => Err(e),
    }
}

/// A profile definition laid out and planned for anchoring.
#[derive(Clone, Debug)]
pub struct ProfilePlan {
    pub layout: Layout,
    pub anchoring: Anchoring,
}

/// Lays out a profile from its segment definitions (`shapes[0]` first, `shapes[s]` taking
/// over at `starts[s - 1]`) and plans how its intervals are anchored, the fixed value lying
/// at `fixed_at` if there is one. Fails with `NoFixedPoint` exactly when no interval has a
/// value of its own.
pub fn plan_profile(shapes: &Vec<SegmentShape>, starts: &Vec<i64>, fixed_at: Option<i64>) -> (r: Result<
    ProfilePlan,
    PlanError,
>)
    requires
        valid_segments(shapes@, starts@),
    ensures
        ({
            let pieces = lowered(shapes@, starts@);
            let ends = end_keys(shapes@, starts@, pieces);
            let anchors = own_fixed_points(pieces, ends, fixed_at);
            let checks = fixed_checks(pieces, ends, fixed_at);
            &&& r is Err <==> forall|i: int| 0 <= i < anchors.len() ==> !anchored(anchors, i)
            &&& match r {
                Ok(plan) => {
                    &&& plan.layout.pieces@ == pieces
                    &&& plan.layout.ends@ == ends
                    &&& strictly_ascending(ends)
                    &&& plan.anchoring.anchors@ == anchors
                    &&& exists|a: int|
                        first_anchored(anchors, a) && plan.anchoring.steps@ == planned_steps(
                            anchors,
                            checks,
                            a,
                        )
                },
                Err(e) => e == PlanError::NoFixedPoint,
            }
        }),
{
    let layout = lower_segments(shapes, starts);
    match plan_anchoring(&layout, fixed_at) {
        Ok(anchoring) => Ok(ProfilePlan { layout, anchoring }),
        Err(e) => Err(e),
    }
}


/// The interval a step is about.
pub open spec fn step_index(s: AnchorStep) -> int {
    match s {
        AnchorStep::Propagate { index, .. } => index as int,
        AnchorStep::CheckFixed { index } => index as int,
        AnchorStep::Check { index, .. } => index as int,
    }
}

/// The neighbour of interval `i` on a side.
pub open spec fn neighbour(i: int, side: Side) -> int {
    match side {
        Side::Below => i - 1,
        Side::Above => i + 1,
    }
}

/// Whether step `s` propagates a value into interval `i`.
pub open spec fn propagates(s: AnchorStep, i: int) -> bool {
    s is Propagate && step_index(s) == i
}

/// Whether interval `i` has a value once the first `t` steps are done.
pub open spec fn anchored_at(anchors: Seq<FixedPoint>, steps: Seq<AnchorStep>, i: int, t: int) -> bool {
    anchored(anchors, i) || exists|u: int| 0 <= u < t && propagates(steps[u], i)
}

/// Whether step `t` can be carried out: a propagation reads from an anchored neighbour into an
/// interval that has no value yet, and a check compares intervals that both have one.
pub open spec fn step_ready(anchors: Seq<FixedPoint>, steps: Seq<AnchorStep>, t: int) -> bool {
    match steps[t] {
        AnchorStep::Propagate { index, from } => {
            let j = neighbour(index as int, from);
            &&& 0 <= j < anchors.len()
            &&& anchored_at(anchors, steps, j, t)
            &&& !anchored_at(anchors, steps, index as int, t)
        },
        AnchorStep::CheckFixed { index } => anchored(anchors, index as int),
        AnchorStep::Check { index, side } => {
            let j = neighbour(index as int, side);
            &&& 0 <= j < anchors.len()
            &&& anchored_at(anchors, steps, index as int, t)
            &&& anchored_at(anchors, steps, j, t)
        },
    }
}

/// Whether some step relates the two sides of the boundary between intervals `b` and
/// `b + 1`: one side is propagated from the other, or the two are checked against each other.
pub open spec fn boundary_covered(steps: Seq<AnchorStep>, b: int) -> bool {
    exists|t: int|
        0 <= t < steps.len() && (steps[t] == AnchorStep::Propagate { index: b as usize, from: Side::Above }
            || steps[t] == AnchorStep::Propagate { index: (b + 1) as usize, from: Side::Below }
            || steps[t] == AnchorStep::Check { index: b as usize, side: Side::Above }
            || steps[t] == AnchorStep::Check { index: (b + 1) as usize, side: Side::Below })
}

/// What the steps of interval `i` may be.
pub open spec fn step_of_interval(anchors: Seq<FixedPoint>, checks: Seq<bool>, a: int, i: int, s: AnchorStep) -> bool {
    match s {
        AnchorStep::Propagate { index, from } => index == i && from == Side::Below && !anchored(anchors, i),
        AnchorStep::CheckFixed { index } => index == i && anchored(anchors, i) && checks[i],
        AnchorStep::Check { index, side } => {
            &&& index == i
            &&& anchored(anchors, i)
            &&& side == Side::Below ==> i > a && !anchored(anchors, i - 1)
            &&& side == Side::Above ==> i + 1 < anchors.len() && anchored(anchors, i + 1)
        },
    }
}

proof fn lemma_interval_steps_shape(anchors: Seq<FixedPoint>, checks: Seq<bool>, a: int, i: int)
    requires
        0 <= i < anchors.len() <= usize::MAX,
    ensures
        forall|q: int|
            0 <= q < interval_steps(anchors, checks, a, i).len() ==> step_of_interval(
                anchors,
                checks,
                a,
                i,
                #[trigger] interval_steps(anchors, checks, a, i)[q],
            ),
        interval_steps(anchors, checks, a, i).len() >= 1 || anchored(anchors, i),
{
    let s = interval_steps(anchors, checks, a, i);
    if anchored(anchors, i) {
        let f: Seq<AnchorStep> = if checks[i] {
            seq![AnchorStep::CheckFixed { index: i as usize }]
        } else {
            seq![]
        };
        let b: Seq<AnchorStep> = if i > a && !anchored(anchors, i - 1) {
            seq![AnchorStep::Check { index: i as usize, side: Side::Below }]
        } else {
            seq![]
        };
        let c: Seq<AnchorStep> = if i + 1 < anchors.len() && anchored(anchors, i + 1) {
            seq![AnchorStep::Check { index: i as usize, side: Side::Above }]
        } else {
            seq![]
        };
        assert(s == f + b + c);
        assert forall|q: int| 0 <= q < s.len() implies step_of_interval(anchors, checks, a, i, #[trigger] s[q]) by {
            if q < f.len() {
                assert(s[q] == f[q]);
            } else if q < f.len() + b.len() {
                assert(s[q] == b[q - f.len()]);
            } else {
                assert(s[q] == c[q - f.len() - b.len()]);
            }
        }
    }
}

proof fn lemma_between_prefix(anchors: Seq<FixedPoint>, checks: Seq<bool>, a: int, i: int, m: int)
    requires
        a <= i <= m,
    ensures
        steps_between(anchors, checks, a, i).len() <= steps_between(anchors, checks, a, m).len(),
        steps_between(anchors, checks, a, m).subrange(
            0,
            steps_between(anchors, checks, a, i).len() as int,
        ) == steps_between(anchors, checks, a, i),
    decreases m - i,
{
    if m > i {
        lemma_between_prefix(anchors, checks, a, i, m - 1);
        let prev = steps_between(anchors, checks, a, m - 1);
        let whole = steps_between(anchors, checks, a, m);
        assert(whole == prev + interval_steps(anchors, checks, a, m - 1));
        assert(whole.subrange(0, steps_between(anchors, checks, a, i).len() as int)
            =~= prev.subrange(0, steps_between(anchors, checks, a, i).len() as int));
    }
}

/// Every step among those of intervals `a` up to `m` belongs to the block of the interval it
/// is about, and the blocks come in the order of the intervals.
proof fn lemma_between_blocks(anchors: Seq<FixedPoint>, checks: Seq<bool>, a: int, m: int)
    requires
        0 <= a <= m <= anchors.len() <= usize::MAX,
    ensures
        forall|t: int|
            0 <= t < steps_between(anchors, checks, a, m).len() ==> {
                let s = #[trigger] steps_between(anchors, checks, a, m)[t];
                let i = step_index(s);
                &&& a <= i < m
                &&& step_of_interval(anchors, checks, a, i, s)
                &&& steps_between(anchors, checks, a, i).len() <= t
                &&& t < steps_between(anchors, checks, a, i + 1).len()
            },
    decreases m - a,
{
    if m > a {
        lemma_between_blocks(anchors, checks, a, m - 1);
        lemma_interval_steps_shape(anchors, checks, a, m - 1);
        let prev = steps_between(anchors, checks, a, m - 1);
        let cur = interval_steps(anchors, checks, a, m - 1);
        let whole = steps_between(anchors, checks, a, m);
        assert(whole == prev + cur);
        assert forall|t: int| 0 <= t < whole.len() implies {
            let s = #[trigger] whole[t];
            let i = step_index(s);
            &&& a <= i < m
            &&& step_of_interval(anchors, checks, a, i, s)
            &&& steps_between(anchors, checks, a, i).len() <= t
            &&& t < steps_between(anchors, checks, a, i + 1).len()
        } by {
            if t < prev.len() {
                assert(whole[t] == prev[t]);
                let i = step_index(prev[t]);
                lemma_between_prefix(anchors, checks, a, i + 1, m - 1);
            } else {
                assert(whole[t] == cur[t - prev.len()]);
                assert(step_of_interval(anchors, checks, a, m - 1, cur[t - prev.len()]));
            }
        }
    }
}

/// Where the block of interval `i` begins in the whole plan.
proof fn lemma_block_position(anchors: Seq<FixedPoint>, checks: Seq<bool>, a: int, i: int, q: int)
    requires
        0 <= a <= i < anchors.len() <= usize::MAX,
        0 <= q < interval_steps(anchors, checks, a, i).len(),
    ensures
        ({
            let steps = planned_steps(anchors, checks, a);
            let p = a + steps_between(anchors, checks, a, i).len() + q;
            &&& p < steps.len()
            &&& steps[p] == interval_steps(anchors, checks, a, i)[q]
        }),
{
    let n = anchors.len() as int;
    lemma_between_prefix(anchors, checks, a, i + 1, n);
    let upto = steps_between(anchors, checks, a, i + 1);
    assert(upto == steps_between(anchors, checks, a, i) + interval_steps(anchors, checks, a, i));
    let whole = steps_between(anchors, checks, a, n);
    let k = steps_between(anchors, checks, a, i).len() + q;
    assert(whole.subrange(0, upto.len() as int)[k] == whole[k]);
    assert(planned_steps(anchors, checks, a)[a + k] == whole[k]);
}

/// Carrying out the plan anchors every interval of the profile. Each step can be carried out
/// when its turn comes: a propagation reads from a neighbour that is anchored by then into an
/// interval that is not, so nothing is overwritten, and a check compares two intervals that
/// are both anchored. Every boundary between two intervals is either crossed by a
/// propagation or checked, so two values for one boundary never go unnoticed.
pub proof fn lemma_plan_is_sound(anchors: Seq<FixedPoint>, checks: Seq<bool>, a: int)
    requires
        first_anchored(anchors, a),
        checks.len() == anchors.len(),
        anchors.len() <= usize::MAX,
    ensures
        ({
            let steps = planned_steps(anchors, checks, a);
            &&& forall|i: int|
                0 <= i < anchors.len() ==> #[trigger] anchored_at(anchors, steps, i, steps.len() as int)
            &&& forall|t: int| 0 <= t < steps.len() ==> #[trigger] step_ready(anchors, steps, t)
            &&& forall|b: int| 0 <= b < anchors.len() - 1 ==> #[trigger] boundary_covered(steps, b)
        }),
{
    let n = anchors.len() as int;
    let steps = planned_steps(anchors, checks, a);
    let below = steps_below(a);
    let body = steps_between(anchors, checks, a, n);
    lemma_between_blocks(anchors, checks, a, n);
    assert(steps == below + body);
    assert forall|t: int| 0 <= t < steps.len() implies #[trigger] step_ready(anchors, steps, t) by {
        if t < a {
            assert(steps[t] == below[t]);
            if t > 0 {
                assert(steps[t - 1] == below[t - 1]);
                assert(propagates(steps[t - 1], a - t));
            }
            assert forall|u: int| 0 <= u < t implies !propagates(steps[u], a - 1 - t) by {
                assert(steps[u] == below[u]);
            }
        } else {
            let s = steps[t];
            assert(s == body[t - a]);
            let i = step_index(s);
            assert(step_of_interval(anchors, checks, a, i, s));
            if i > a && !anchored(anchors, i - 1) {
                lemma_interval_steps_shape(anchors, checks, a, i - 1);
                lemma_block_position(anchors, checks, a, i - 1, 0);
                lemma_between_prefix(anchors, checks, a, i, n);
                assert(interval_steps(anchors, checks, a, i - 1)[0] == AnchorStep::Propagate { index: (i - 1) as usize, from: Side::Below });
                assert(steps_between(anchors, checks, a, i) == steps_between(anchors, checks, a, i - 1) + interval_steps(anchors, checks, a, i - 1));
                assert(propagates(steps[a + steps_between(anchors, checks, a, i - 1).len()], i - 1));
            }
            if s is Propagate {
                assert(i > a);
                assert forall|u: int| 0 <= u < t implies !propagates(steps[u], i) by {
                    if u < a {
                        assert(steps[u] == below[u]);
                    } else {
                        assert(steps[u] == body[u - a]);
                        let w = step_index(body[u - a]);
                        if w == i {
                            assert(interval_steps(anchors, checks, a, i).len() == 1);
                            assert(steps_between(anchors, checks, a, i + 1) == steps_between(anchors, checks, a, i) + interval_steps(anchors, checks, a, i));
                        }
                    }
                }
            }
        }
    }
    assert forall|i: int| 0 <= i < n implies #[trigger] anchored_at(anchors, steps, i, steps.len() as int) by {
        if i < a {
            assert(steps[a - 1 - i] == below[a - 1 - i]);
            assert(propagates(steps[a - 1 - i], i));
        } else if !anchored(anchors, i) {
            lemma_block_position(anchors, checks, a, i, 0);
            assert(propagates(steps[a + steps_between(anchors, checks, a, i).len()], i));
        }
    }
    assert forall|b: int| 0 <= b < n - 1 implies #[trigger] boundary_covered(steps, b) by {
        if b < a {
            assert(steps[a - 1 - b] == below[a - 1 - b]);
        } else if !anchored(anchors, b + 1) {
            lemma_block_position(anchors, checks, a, b + 1, 0);
        } else if anchored(anchors, b) {
            let blk = interval_steps(anchors, checks, a, b);
            let q = blk.len() - 1;
            lemma_block_position(anchors, checks, a, b, q);
        } else {
            let q: int = if checks[b + 1] {
                1
            } else {
                0
            };
            lemma_block_position(anchors, checks, a, b + 1, q);
        }
    }
}


/// Evaluating a profile at the altitude of its fixed value gives the fixed value back. The
/// lookup at that altitude finds an interval that holds it. A gradient or sloped interval
/// there is anchored on the fixed value itself, a cubic one is checked against it, and no
/// step of the plan gives that interval another value.
pub proof fn lemma_fixed_value_round_trip(pieces: Seq<Piece>, ends: Seq<i64>, x: i64, i: int, a: int)
    requires
        pieces.len() == ends.len() + 1,
        pieces.len() <= usize::MAX,
        is_interval_of(ends, x as int, i),
        first_anchored(own_fixed_points(pieces, ends, Some(x)), a),
    ensures
        ({
            let anchors = own_fixed_points(pieces, ends, Some(x));
            let checks = fixed_checks(pieces, ends, Some(x));
            let steps = planned_steps(anchors, checks, a);
            &&& holds(ends, i, x as int)
            &&& pieces[i].kind is Cubic ==> exists|t: int|
                0 <= t < steps.len() && steps[t] == AnchorStep::CheckFixed { index: i as usize }
            &&& !(pieces[i].kind is Cubic) ==> anchors[i] == FixedPoint::FixedTemp
            &&& forall|t: int| 0 <= t < steps.len() ==> !propagates(steps[t], i)
        }),
{
    let anchors = own_fixed_points(pieces, ends, Some(x));
    let checks = fixed_checks(pieces, ends, Some(x));
    let steps = planned_steps(anchors, checks, a);
    if i > 0 {
        assert(ends[i - 1] < x);
    }
    assert(holds(ends, i, x as int));
    assert(holds_fixed(ends, i, Some(x)));
    assert(anchored(anchors, i));
    lemma_plan_is_sound(anchors, checks, a);
    assert forall|t: int| 0 <= t < steps.len() implies !propagates(steps[t], i) by {
        assert(step_ready(anchors, steps, t));
    }
    if pieces[i].kind is Cubic {
        assert(checks[i]);
        assert(a <= i);
        lemma_interval_steps_shape(anchors, checks, a, i);
        assert(interval_steps(anchors, checks, a, i)[0] == AnchorStep::CheckFixed { index: i as usize });
        lemma_block_position(anchors, checks, a, i, 0);
    }
}

proof fn lemma_gradient_pieces(shapes: Seq<SegmentShape>, starts: Seq<i64>, n: nat)
    requires
        n <= shapes.len(),
        forall|s: int| 0 <= s < shapes.len() ==> shapes[s] is Linear,
    ensures
        forall|p: int|
            0 <= p < pieces_upto(shapes, starts, n).len() ==> (#[trigger] pieces_upto(shapes, starts, n)[p]).kind
                == PieceKind::Gradient,
    decreases n,
{
    if n > 0 {
        lemma_gradient_pieces(shapes, starts, (n - 1) as nat);
        let prev = pieces_upto(shapes, starts, (n - 1) as nat);
        let cur = segment_pieces(shapes, starts, (n - 1) as nat);
        assert(shapes[n - 1] is Linear);
        assert forall|p: int| 0 <= p < pieces_upto(shapes, starts, n).len() implies (
        #[trigger] pieces_upto(shapes, starts, n)[p]).kind == PieceKind::Gradient by {
            if p < prev.len() {
                assert(pieces_upto(shapes, starts, n)[p] == prev[p]);
            } else {
                assert(pieces_upto(shapes, starts, n)[p] == cur[p - prev.len()]);
            }
        }
    }
}

/// A profile of gradient segments alone, with no fixed value, has no interval with a value of
/// its own, so planning it fails with `NoFixedPoint`.
pub proof fn lemma_gradients_alone_are_unanchored(shapes: Seq<SegmentShape>, starts: Seq<i64>)
    requires
        forall|s: int| 0 <= s < shapes.len() ==> shapes[s] is Linear,
    ensures
        ({
            let pieces = lowered(shapes, starts);
            let anchors = own_fixed_points(pieces, end_keys(shapes, starts, pieces), None);
            forall|i: int| 0 <= i < anchors.len() ==> !anchored(anchors, i)
        }),
{
    lemma_gradient_pieces(shapes, starts, shapes.len());
}

/// A profile of one gradient segment and a fixed value is a single interval, anchored on the
/// fixed value, with no step left to take: its value at every altitude is the fixed value plus
/// the gradient times the distance from the fixed altitude.
pub proof fn lemma_single_gradient(shapes: Seq<SegmentShape>, starts: Seq<i64>, x: i64)
    requires
        shapes.len() == 1,
        starts.len() == 0,
        shapes[0] is Linear,
    ensures
        ({
            let pieces = lowered(shapes, starts);
            let ends = end_keys(shapes, starts, pieces);
            let anchors = own_fixed_points(pieces, ends, Some(x));
            &&& pieces == seq![Piece { segment: 0, kind: PieceKind::Gradient, start: None }]
            &&& ends.len() == 0
            &&& anchors == seq![FixedPoint::FixedTemp]
            &&& first_anchored(anchors, 0)
            &&& planned_steps(anchors, fixed_checks(pieces, ends, Some(x)), 0).len() == 0
        }),
{
    let pieces = lowered(shapes, starts);
    assert(pieces_upto(shapes, starts, 0) == Seq::<Piece>::empty());
    assert(pieces =~= seq![Piece { segment: 0, kind: PieceKind::Gradient, start: None }]);
    let ends = end_keys(shapes, starts, pieces);
    let anchors = own_fixed_points(pieces, ends, Some(x));
    assert(holds(ends, 0, x as int));
    assert(anchors =~= seq![FixedPoint::FixedTemp]);
    let checks = fixed_checks(pieces, ends, Some(x));
    assert(steps_between(anchors, checks, 0, 0).len() == 0);
    assert(interval_steps(anchors, checks, 0, 0).len() == 0);
    assert(steps_between(anchors, checks, 0, 1) == steps_between(anchors, checks, 0, 0) + interval_steps(anchors, checks, 0, 0));
}


/// Some interval of a profile holds any given altitude.
proof fn lemma_some_interval_holds(ends: Seq<i64>, x: int)
    ensures
        exists|i: int| 0 <= i <= ends.len() && holds(ends, i, x),
    decreases ends.len(),
{
    let n = ends.len() as int;
    if n == 0 {
        assert(holds(ends, 0, x));
    } else if ends[n - 1] <= x {
        assert(holds(ends, n, x));
    } else {
        let shorter = ends.drop_last();
        lemma_some_interval_holds(shorter, x);
        let i = choose|i: int| 0 <= i <= shorter.len() && holds(shorter, i, x);
        if i > 0 {
            assert(shorter[i - 1] == ends[i - 1]);
        }
        if i < shorter.len() {
            assert(shorter[i] == ends[i]);
        }
        assert(holds(ends, i, x));
    }
}

/// A profile has at least one interval: the first segment always gives one.
proof fn lemma_lowered_nonempty(shapes: Seq<SegmentShape>, starts: Seq<i64>)
    requires
        valid_segments(shapes, starts),
    ensures
        lowered(shapes, starts).len() >= 1,
{
    lemma_pieces_prefix(shapes, starts, 1, shapes.len());
    assert(pieces_upto(shapes, starts, 0).len() == 0);
    assert(pieces_upto(shapes, starts, 1) == pieces_upto(shapes, starts, 0) + segment_pieces(shapes, starts, 0));
    match shapes[0] {
        SegmentShape::Linear => {},
        SegmentShape::Spline { knots } => {
            assert(knots@.len() >= 2) by {
                assert(match shapes[0] {
                    SegmentShape::Spline { knots } => knots@.len() >= 2 && strictly_ascending(knots@),
                    SegmentShape::Linear => true,
                });
            }
            assert(leads(start_of(starts, 0), knots@));
            assert(spline_pieces(0, start_of(starts, 0), end_of(starts, 0), knots@).len() >= 1);
        },
    }
}

/// Among the first `n` polynomial pieces, piece `j` is kept when it reaches into the range.
proof fn lemma_cubic_kept(
    s: nat,
    start: Option<i64>,
    end: Option<i64>,
    knots: Seq<i64>,
    n: nat,
    j: nat,
)
    requires
        j < n,
        keeps_cubic(start, end, knots, j as int),
    ensures
        cubic_pieces(s, start, end, knots, n).len() >= 1,
    decreases n,
{
    if j + 1 < n {
        lemma_cubic_kept(s, start, end, knots, (n - 1) as nat, j);
    }
}

/// A control point at or below the segment's start, followed by one above it.
proof fn lemma_knot_bracket(knots: Seq<i64>, a: i64, m: int)
    requires
        2 <= m <= knots.len(),
        knots[0] <= a < knots[m - 1],
    ensures
        exists|j: int| 0 <= j < m - 1 && #[trigger] knots[j] <= a < knots[j + 1],
    decreases m,
{
    if m > 2 && knots[m - 2] > a {
        lemma_knot_bracket(knots, a, m - 1);
        let j = choose|j: int| 0 <= j < m - 2 && #[trigger] knots[j] <= a < knots[j + 1];
        assert(0 <= j < m - 1 && knots[j] <= a < knots[j + 1]);
    } else {
        assert(knots[m - 2] <= a < knots[m - 1]);
    }
}

/// A spline segment always gives at least one interval, and none of its intervals lacks a
/// value of its own.
proof fn lemma_spline_pieces_nonempty(s: nat, start: Option<i64>, end: Option<i64>, knots: Seq<i64>)
    requires
        knots.len() >= 2,
        strictly_ascending(knots),
        match (start, end) {
            (Some(a), Some(b)) => a < b,
            _ => true,
        },
    ensures
        spline_pieces(s, start, end, knots).len() >= 1,
        forall|q: int|
            0 <= q < spline_pieces(s, start, end, knots).len() ==> (#[trigger] spline_pieces(
                s,
                start,
                end,
                knots,
            )[q]).kind != PieceKind::Gradient,
{
    let m = knots.len() as int;
    let last = (m - 1) as nat;
    let lead: Seq<Piece> = if leads(start, knots) {
        seq![Piece { segment: s as usize, kind: PieceKind::LeadingSlope, start: match start {
            Some(_) => Some(Boundary::SegmentStart(s as usize)),
            None => None,
        } }]
    } else {
        seq![]
    };
    let cubic = cubic_pieces(s, start, end, knots, last);
    let trail: Seq<Piece> = if trails(end, knots) {
        seq![Piece { segment: s as usize, kind: PieceKind::TrailingSlope, start: Some(clip(s, start, knots, last)) }]
    } else {
        seq![]
    };
    let all = spline_pieces(s, start, end, knots);
    assert(all == lead + cubic + trail);
    if !leads(start, knots) && !trails(end, knots) {
        let a = start->Some_0;
        let b = end->Some_0;
        assert(knots[0] < knots[m - 1]);
        lemma_knot_bracket(knots, a, m);
        let j = choose|j: int| 0 <= j < m - 1 && #[trigger] knots[j] <= a < knots[j + 1];
        assert(clip_key(start, knots[j]) == a);
        assert(keeps_cubic(start, end, knots, j));
        lemma_cubic_kept(s, start, end, knots, last, j as nat);
    }
    lemma_cubic_kinds(s, start, end, knots, last);
    assert forall|q: int| 0 <= q < all.len() implies (#[trigger] all[q]).kind != PieceKind::Gradient by {
        if q < lead.len() {
            assert(all[q] == lead[q]);
        } else if q < lead.len() + cubic.len() {
            assert(all[q] == cubic[q - lead.len()]);
        } else {
            assert(all[q] == trail[q - lead.len() - cubic.len()]);
        }
    }
}

proof fn lemma_cubic_kinds(s: nat, start: Option<i64>, end: Option<i64>, knots: Seq<i64>, n: nat)
    ensures
        forall|q: int|
            0 <= q < cubic_pieces(s, start, end, knots, n).len() ==> (#[trigger] cubic_pieces(
                s,
                start,
                end,
                knots,
                n,
            )[q]).kind is Cubic,
    decreases n,
{
    if n > 0 {
        lemma_cubic_kinds(s, start, end, knots, (n - 1) as nat);
        let prev = cubic_pieces(s, start, end, knots, (n - 1) as nat);
        let all = cubic_pieces(s, start, end, knots, n);
        assert forall|q: int| 0 <= q < all.len() implies (#[trigger] all[q]).kind is Cubic by {
            if q < prev.len() {
                assert(all[q] == prev[q]);
            }
        }
    }
}

/// The intervals of the first `m` segments begin the intervals of the first `n`.
proof fn lemma_pieces_prefix(shapes: Seq<SegmentShape>, starts: Seq<i64>, m: nat, n: nat)
    requires
        m <= n,
    ensures
        pieces_upto(shapes, starts, m).len() <= pieces_upto(shapes, starts, n).len(),
        forall|q: int|
            0 <= q < pieces_upto(shapes, starts, m).len() ==> #[trigger] pieces_upto(shapes, starts, n)[q]
                == pieces_upto(shapes, starts, m)[q],
    decreases n - m,
{
    if m < n {
        lemma_pieces_prefix(shapes, starts, m, (n - 1) as nat);
        let prev = pieces_upto(shapes, starts, (n - 1) as nat);
        assert(pieces_upto(shapes, starts, n) == prev + segment_pieces(shapes, starts, (n - 1) as nat));
    }
}

/// Planning a profile fails with `NoFixedPoint` exactly when the definition has gradient
/// segments alone and no fixed value: a spline always knows its values, and a fixed value
/// always lies in some interval.
pub proof fn lemma_no_fixed_point_exactly(shapes: Seq<SegmentShape>, starts: Seq<i64>, fixed_at: Option<i64>)
    requires
        valid_segments(shapes, starts),
    ensures
        ({
            let pieces = lowered(shapes, starts);
            let anchors = own_fixed_points(pieces, end_keys(shapes, starts, pieces), fixed_at);
            (forall|i: int| 0 <= i < anchors.len() ==> !anchored(anchors, i)) <==> (fixed_at is None
                && forall|s: int| 0 <= s < shapes.len() ==> shapes[s] is Linear)
        }),
{
    let pieces = lowered(shapes, starts);
    let ends = end_keys(shapes, starts, pieces);
    let anchors = own_fixed_points(pieces, ends, fixed_at);
    if fixed_at is None && forall|s: int| 0 <= s < shapes.len() ==> shapes[s] is Linear {
        lemma_gradients_alone_are_unanchored(shapes, starts);
    } else {
        lemma_lowered_nonempty(shapes, starts);
        if let Some(x) = fixed_at {
            lemma_some_interval_holds(ends, x as int);
            let i = choose|i: int| 0 <= i <= ends.len() && holds(ends, i, x as int);
            assert(anchored(anchors, i));
        } else {
            let s = choose|s: int| 0 <= s < shapes.len() && !(shapes[s] is Linear);
            let knots = shapes[s]->knots;
            assert(knots@.len() >= 2 && strictly_ascending(knots@)) by {
                assert(match shapes[s] {
                    SegmentShape::Spline { knots } => knots@.len() >= 2 && strictly_ascending(knots@),
                    SegmentShape::Linear => true,
                });
            }
            if s > 0 && s < starts.len() {
                assert(starts[s - 1] < starts[s]);
            }
            lemma_spline_pieces_nonempty(s as nat, start_of(starts, s), end_of(starts, s), knots@);
            lemma_pieces_prefix(shapes, starts, (s + 1) as nat, shapes.len());
            let before = pieces_upto(shapes, starts, s as nat);
            let upto = pieces_upto(shapes, starts, (s + 1) as nat);
            let own = segment_pieces(shapes, starts, s as nat);
            assert(upto == before + own);
            let p = before.len() as int;
            assert(upto[p] == own[0]);
            assert(pieces[p] == own[0]);
            assert(own[0].kind != PieceKind::Gradient);
            assert(anchored(anchors, p));
        }
    }
}

} // verus!
