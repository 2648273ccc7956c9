//! The kinds of light path.
use vstd::prelude::*;

verus! {

/// The four kinds of path: a straight line or a ray bent by the atmosphere, over a flat or a
/// spherical planet.
#[derive(Clone, Copy, Debug, PartialEq, Eq, Structural)]
pub enum PathKind {
    FlatLine,
    FlatRay,
    SphericalLine,
    SphericalRay,
}

/// The kind of path that answers a query: a line when `straight`, a ray otherwise, over a
/// spherical planet when `spherical`.
pub fn path_kind(straight: bool, spherical: bool) -> (r: PathKind)
    ensures
        r == PathKind::FlatLine <==> straight && !spherical,
        r == PathKind::FlatRay <==> !straight && !spherical,
        r == PathKind::SphericalLine <==> straight && spherical,
        r == PathKind::SphericalRay <==> !straight && spherical,
{
    match (straight, spherical) {
        (true, false) => PathKind::FlatLine,
        (false, false) => PathKind::FlatRay,
        (true, true) => PathKind::SphericalLine,
        (false, true) => PathKind::SphericalRay,
    }
}

} // verus!
