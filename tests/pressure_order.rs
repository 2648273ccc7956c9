use atm_refraction::{
    altitude_key, path_kind, pressure_order, pressure_shape, PathKind, PressureShape,
    PressureStep, TemperatureShape,
};

fn key(h: f64) -> i64 {
    altitude_key(h.to_bits()).unwrap()
}

#[test]
fn pressure_spreads_outward_from_the_reference() {
    let ends = vec![key(11e3), key(20e3), key(32e3)];
    assert_eq!(
        pressure_order(&ends, key(25e3)),
        vec![
            PressureStep::Start(2),
            PressureStep::FromAbove(1),
            PressureStep::FromAbove(0),
            PressureStep::FromBelow(3),
        ]
    );
    assert_eq!(
        pressure_order(&ends, key(0.0)),
        vec![
            PressureStep::Start(0),
            PressureStep::FromBelow(1),
            PressureStep::FromBelow(2),
            PressureStep::FromBelow(3),
        ]
    );
    assert_eq!(pressure_order(&vec![], key(0.0)), vec![PressureStep::Start(0)]);
}

#[test]
fn pressure_forms_follow_temperature_shapes() {
    assert_eq!(pressure_shape(TemperatureShape::Constant), PressureShape::Exponential);
    assert_eq!(pressure_shape(TemperatureShape::Sloped), PressureShape::Power);
    assert_eq!(pressure_shape(TemperatureShape::CubicThreeRoots), PressureShape::TriplePower);
    assert_eq!(pressure_shape(TemperatureShape::CubicOneRoot), PressureShape::PowerWithAtan);
}

#[test]
fn path_kinds() {
    assert_eq!(path_kind(true, false), PathKind::FlatLine);
    assert_eq!(path_kind(false, false), PathKind::FlatRay);
    assert_eq!(path_kind(true, true), PathKind::SphericalLine);
    assert_eq!(path_kind(false, true), PathKind::SphericalRay);
}
