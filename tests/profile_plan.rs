use atm_refraction::{
    altitude_key, plan_profile, AnchorStep, Boundary, FixedPoint, PieceKind, PlanError,
    ProfilePlan, SegmentShape, Side,
};

fn key(h: f64) -> i64 {
    altitude_key(h.to_bits()).unwrap()
}

fn spline(xs: &[f64]) -> SegmentShape {
    SegmentShape::Spline {
        knots: xs.iter().map(|&x| key(x)).collect(),
    }
}

fn plan(shapes: Vec<SegmentShape>, starts: &[f64], fixed_at: Option<f64>) -> Result<ProfilePlan, PlanError> {
    let starts: Vec<i64> = starts.iter().map(|&h| key(h)).collect();
    plan_profile(&shapes, &starts, fixed_at.map(key))
}

fn kinds(p: &ProfilePlan) -> Vec<PieceKind> {
    p.layout.pieces.iter().map(|p| p.kind).collect()
}

fn three_gradients() -> Vec<SegmentShape> {
    vec![SegmentShape::Linear, SegmentShape::Linear, SegmentShape::Linear]
}

fn propagate(index: usize, from: Side) -> AnchorStep {
    AnchorStep::Propagate { index, from }
}

fn check(index: usize, side: Side) -> AnchorStep {
    AnchorStep::Check { index, side }
}

#[test]
fn should_build_correctly_with_fixed_point_in_first_interval() {
    let p = plan(three_gradients(), &[11e3, 15e3], Some(0.0)).expect("should build correctly");
    assert_eq!(p.layout.ends, vec![key(11e3), key(15e3)]);
    assert_eq!(
        p.anchoring.anchors,
        vec![FixedPoint::FixedTemp, FixedPoint::Unanchored, FixedPoint::Unanchored]
    );
    assert_eq!(p.anchoring.steps, vec![propagate(1, Side::Below), propagate(2, Side::Below)]);
}

#[test]
fn should_build_correctly_with_fixed_point_in_last_interval() {
    let p = plan(three_gradients(), &[11e3, 15e3], Some(16e3)).expect("should build correctly");
    assert_eq!(
        p.anchoring.anchors,
        vec![FixedPoint::Unanchored, FixedPoint::Unanchored, FixedPoint::FixedTemp]
    );
    assert_eq!(p.anchoring.steps, vec![propagate(1, Side::Above), propagate(0, Side::Above)]);
}

#[test]
fn should_build_correctly_with_fixed_point_in_the_middle() {
    let p = plan(three_gradients(), &[11e3, 15e3], Some(12e3)).expect("should build correctly");
    assert_eq!(
        p.anchoring.anchors,
        vec![FixedPoint::Unanchored, FixedPoint::FixedTemp, FixedPoint::Unanchored]
    );
    assert_eq!(p.anchoring.steps, vec![propagate(0, Side::Above), propagate(2, Side::Below)]);
}

#[test]
fn should_build_correctly_with_only_spline() {
    let p = plan(vec![spline(&[0.0, 10.0, 15.0])], &[], None).expect("should build correctly");
    assert_eq!(
        kinds(&p),
        vec![PieceKind::LeadingSlope, PieceKind::Cubic(0), PieceKind::Cubic(1), PieceKind::TrailingSlope]
    );
    assert_eq!(p.layout.pieces[0].start, None);
    assert_eq!(p.layout.pieces[1].start, Some(Boundary::Knot(0, 0)));
    assert_eq!(p.layout.pieces[3].start, Some(Boundary::Knot(0, 2)));
    assert_eq!(p.layout.ends, vec![key(0.0), key(10.0), key(15.0)]);
    assert_eq!(p.anchoring.anchors, vec![FixedPoint::Spline(0); 4]);
    assert_eq!(
        p.anchoring.steps,
        vec![check(0, Side::Above), check(1, Side::Above), check(2, Side::Above)]
    );
}

#[test]
fn should_build_correctly_with_spline_with_fixed_point() {
    let p = plan(vec![spline(&[0.0, 10.0, 15.0])], &[], Some(10.0)).expect("should build correctly");
    assert_eq!(
        p.anchoring.steps,
        vec![
            check(0, Side::Above),
            AnchorStep::CheckFixed { index: 1 },
            check(1, Side::Above),
            AnchorStep::CheckFixed { index: 2 },
            check(2, Side::Above),
        ]
    );
}

#[test]
fn should_build_correctly_with_spline_and_linear() {
    let p = plan(vec![spline(&[0.0, 10.0, 15.0]), SegmentShape::Linear], &[16.0], None)
        .expect("should build correctly");
    assert_eq!(
        kinds(&p),
        vec![
            PieceKind::LeadingSlope,
            PieceKind::Cubic(0),
            PieceKind::Cubic(1),
            PieceKind::TrailingSlope,
            PieceKind::Gradient,
        ]
    );
    assert_eq!(p.layout.ends, vec![key(0.0), key(10.0), key(15.0), key(16.0)]);
    assert_eq!(
        p.anchoring.steps,
        vec![
            check(0, Side::Above),
            check(1, Side::Above),
            check(2, Side::Above),
            propagate(4, Side::Below),
        ]
    );
}

#[test]
fn should_build_correctly_with_linear_and_spline() {
    let p = plan(vec![SegmentShape::Linear, spline(&[0.0, 10.0, 15.0])], &[-1.0], None)
        .expect("should build correctly");
    assert_eq!(
        kinds(&p),
        vec![
            PieceKind::Gradient,
            PieceKind::LeadingSlope,
            PieceKind::Cubic(0),
            PieceKind::Cubic(1),
            PieceKind::TrailingSlope,
        ]
    );
    assert_eq!(p.layout.pieces[1].start, Some(Boundary::SegmentStart(1)));
    assert_eq!(p.layout.ends, vec![key(-1.0), key(0.0), key(10.0), key(15.0)]);
    assert_eq!(
        p.anchoring.steps,
        vec![
            propagate(0, Side::Above),
            check(1, Side::Above),
            check(2, Side::Above),
            check(3, Side::Above),
        ]
    );
}

#[test]
fn should_fail_if_linear_without_fixed_value() {
    let result = plan(vec![SegmentShape::Linear, SegmentShape::Linear], &[0.0], None);
    assert_eq!(result.err(), Some(PlanError::NoFixedPoint));
}

#[test]
fn conflict_between_gradient_and_spline_is_checked_first() {
    // the fixed value lies in the gradient interval below the spline: the first check
    // compares that interval with the spline's first piece at their shared boundary
    let p = plan(vec![SegmentShape::Linear, spline(&[0.0, 10.0, 15.0])], &[0.0], Some(-2.0))
        .expect("the layout itself is sound");
    assert_eq!(p.anchoring.anchors[0], FixedPoint::FixedTemp);
    assert_eq!(p.anchoring.steps[0], check(0, Side::Above));
    assert_eq!(p.layout.ends[0], key(0.0));
}

#[test]
fn spline_inside_its_segment_is_clipped() {
    // the spline reaches below the segment's start and above its end
    let p = plan(
        vec![SegmentShape::Linear, spline(&[0.0, 10.0, 15.0]), SegmentShape::Linear],
        &[12.0, 13.0],
        Some(20.0),
    )
    .unwrap();
    assert_eq!(
        kinds(&p),
        vec![PieceKind::Gradient, PieceKind::Cubic(1), PieceKind::Gradient]
    );
    assert_eq!(p.layout.pieces[1].start, Some(Boundary::SegmentStart(1)));
    assert_eq!(p.layout.ends, vec![key(12.0), key(13.0)]);
}

#[test]
fn spline_below_its_segment_continues_with_its_end_slope() {
    let p = plan(vec![SegmentShape::Linear, spline(&[0.0, 10.0])], &[20.0], Some(0.0)).unwrap();
    assert_eq!(kinds(&p), vec![PieceKind::Gradient, PieceKind::TrailingSlope]);
    assert_eq!(p.layout.pieces[1].start, Some(Boundary::SegmentStart(1)));
    assert_eq!(p.layout.ends, vec![key(20.0)]);
}

#[test]
fn us76_layout() {
    let alts = [11e3, 20e3, 32e3, 47e3, 51e3, 71e3, 84.852e3];
    let p = plan(vec![SegmentShape::Linear; 8], &alts, Some(0.0)).unwrap();
    assert_eq!(p.layout.pieces.len(), 8);
    assert_eq!(p.anchoring.anchors[0], FixedPoint::FixedTemp);
    let expected: Vec<AnchorStep> = (1..8).map(|i| propagate(i, Side::Below)).collect();
    assert_eq!(p.anchoring.steps, expected);
}

#[test]
fn fixed_value_on_a_boundary_anchors_both_sides() {
    let p = plan(three_gradients(), &[11e3, 15e3], Some(11e3)).unwrap();
    assert_eq!(
        p.anchoring.anchors,
        vec![FixedPoint::FixedTemp, FixedPoint::FixedTemp, FixedPoint::Unanchored]
    );
    assert_eq!(p.anchoring.steps, vec![check(0, Side::Above), propagate(2, Side::Below)]);
}

#[test]
fn segment_taking_over_at_a_knot_leaves_no_empty_interval() {
    let p = plan(vec![spline(&[0.0, 10.0, 20.0]), SegmentShape::Linear], &[10.0], Some(0.0)).unwrap();
    assert_eq!(
        kinds(&p),
        vec![PieceKind::LeadingSlope, PieceKind::Cubic(0), PieceKind::Gradient]
    );
    assert_eq!(p.layout.ends, vec![key(0.0), key(10.0)]);
}

#[test]
fn spline_segment_starting_on_a_knot_leaves_no_empty_interval() {
    let p = plan(vec![SegmentShape::Linear, spline(&[0.0, 10.0, 15.0])], &[10.0], None).unwrap();
    assert_eq!(
        kinds(&p),
        vec![PieceKind::Gradient, PieceKind::Cubic(1), PieceKind::TrailingSlope]
    );
    assert_eq!(p.layout.pieces[1].start, Some(Boundary::Knot(1, 1)));
    assert_eq!(p.layout.ends, vec![key(10.0), key(15.0)]);
}
