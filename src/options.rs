//! The choices that the command line makes: how the ray is aimed, the planet's shape and what
//! is reported.
use vstd::prelude::*;

verus! {

/// How the ray is aimed.
#[derive(Clone, Copy, Debug, PartialEq, Eq, Structural)]
pub enum RayDirKind {
    /// At a given angle from the horizontal.
    Angle,
    /// So as to hit a target at a given altitude and distance.
    Target,
    /// Horizontally from the ground, to find the horizon.
    Horizon,
}

/// The planet's shape.
#[derive(Clone, Copy, Debug, PartialEq, Eq, Structural)]
pub enum ShapeKind {
    Flat,
    /// A sphere of the Earth's radius.
    DefaultSphere,
    /// A sphere of the radius given.
    GivenSphere,
}

/// What is reported.
#[derive(Clone, Copy, Debug, PartialEq, Eq, Structural)]
pub enum OutputKind {
    /// The altitude of the path at a given distance.
    AltitudeAtDistance,
    /// The angle at which the path starts.
    StartAngle,
    /// The angle down to the horizon.
    Horizon,
}

/// Options that do not go together.
#[derive(Clone, Copy, Debug, PartialEq, Eq, Structural)]
pub enum OptionsError {
    /// Neither an angle nor a target was given.
    NoDirection,
    /// An angle and a target, or half a target, were given.
    ConflictingDirection,
    /// A flat planet and a radius were both asked for.
    ConflictingShape,
}

/// How the ray is aimed, given which of the options were present: asking for the horizon
/// decides alone; otherwise either an angle or both parts of a target must be given.
pub fn ray_direction(horizon: bool, angle: bool, target_h: bool, target_dist: bool) -> (r: Result<
    RayDirKind,
    OptionsError,
>)
    ensures
        horizon ==> r == Ok::<RayDirKind, OptionsError>(RayDirKind::Horizon),
        !horizon && angle && !target_h && !target_dist ==> r == Ok::<RayDirKind, OptionsError>(
            RayDirKind::Angle,
        ),
        !horizon && !angle && target_h && target_dist ==> r == Ok::<RayDirKind, OptionsError>(
            RayDirKind::Target,
        ),
        !horizon && !angle && !target_h && !target_dist ==> r == Err::<RayDirKind, OptionsError>(
            OptionsError::NoDirection,
        ),
        !horizon && (angle || target_h || target_dist) && !(angle && !target_h && !target_dist)
            && !(!angle && target_h && target_dist) ==> r == Err::<RayDirKind, OptionsError>(
            OptionsError::ConflictingDirection,
        ),
{
    if horizon {
        return Ok(RayDirKind::Horizon);
    }
    match (angle, target_h, target_dist) {
        (true, false, false) => Ok(RayDirKind::Angle),
        (false, true, true) => Ok(RayDirKind::Target),
        (false, false, false) => Err(OptionsError::NoDirection),
        _ => Err(OptionsError::ConflictingDirection),
    }
}

/// The planet's shape, given whether a flat planet and whether a radius were asked for.
pub fn earth_shape(flat: bool, radius: bool) -> (r: Result<ShapeKind, OptionsError>)
    ensures
        !flat && !radius ==> r == Ok::<ShapeKind, OptionsError>(ShapeKind::DefaultSphere),
        flat && !radius ==> r == Ok::<ShapeKind, OptionsError>(ShapeKind::Flat),
        !flat && radius ==> r == Ok::<ShapeKind, OptionsError>(ShapeKind::GivenSphere),
        flat && radius ==> r == Err::<ShapeKind, OptionsError>(OptionsError::ConflictingShape),
{
    match (flat, radius) {
        (false, false) => Ok(ShapeKind::DefaultSphere),
        (true, false) => Ok(ShapeKind::Flat),
        (false, true) => Ok(ShapeKind::GivenSphere),
        (true, true) => Err(OptionsError::ConflictingShape),
    }
}

/// What is reported, in order, given whether a distance, the start angle and the horizon were
/// asked for: the horizon replaces everything else.
pub fn outputs(distance: bool, angle: bool, horizon: bool) -> (r: Vec<OutputKind>)
    ensures
        horizon ==> r@ == seq![OutputKind::Horizon],
        !horizon ==> r@ == (if distance {
            seq![OutputKind::AltitudeAtDistance]
        } else {
            seq![]
        }) + (if angle {
            seq![OutputKind::StartAngle]
        } else {
            seq![]
        }),
{
    let mut r: Vec<OutputKind> = Vec::new();
    if horizon {
        r.push(OutputKind::Horizon);
        assert(r@ =~= seq![OutputKind::Horizon]);
        return r;
    }
    if distance {
        r.push(OutputKind::AltitudeAtDistance);
    }
    if angle {
        r.push(OutputKind::StartAngle);
    }
    assert(r@ =~= (if distance {
        seq![OutputKind::AltitudeAtDistance]
    } else {
        seq![]
    }) + (if angle {
        seq![OutputKind::StartAngle]
    } else {
        seq![]
    }));
    r
}

} // verus!
