use atm_refraction::options::{
    earth_shape, outputs, ray_direction, OptionsError, OutputKind, RayDirKind, ShapeKind,
};

#[test]
fn ray_direction_from_options() {
    assert_eq!(ray_direction(true, true, false, false), Ok(RayDirKind::Horizon));
    assert_eq!(ray_direction(false, true, false, false), Ok(RayDirKind::Angle));
    assert_eq!(ray_direction(false, false, true, true), Ok(RayDirKind::Target));
    assert_eq!(ray_direction(false, false, false, false), Err(OptionsError::NoDirection));
    assert_eq!(
        ray_direction(false, true, true, true),
        Err(OptionsError::ConflictingDirection)
    );
    assert_eq!(
        ray_direction(false, false, true, false),
        Err(OptionsError::ConflictingDirection)
    );
}

#[test]
fn earth_shape_from_options() {
    assert_eq!(earth_shape(false, false), Ok(ShapeKind::DefaultSphere));
    assert_eq!(earth_shape(true, false), Ok(ShapeKind::Flat));
    assert_eq!(earth_shape(false, true), Ok(ShapeKind::GivenSphere));
    assert_eq!(earth_shape(true, true), Err(OptionsError::ConflictingShape));
}

#[test]
fn outputs_from_options() {
    assert_eq!(
        outputs(true, true, false),
        vec![OutputKind::AltitudeAtDistance, OutputKind::StartAngle]
    );
    assert_eq!(outputs(false, true, false), vec![OutputKind::StartAngle]);
    assert_eq!(outputs(true, true, true), vec![OutputKind::Horizon]);
    assert_eq!(outputs(false, false, false), vec![]);
}
