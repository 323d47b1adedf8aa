use vstd::prelude::*;

verus! {

/// A point or a direction in fixed-point micrometres.
#[derive(Clone, Copy, Debug, PartialEq, Eq, Structural)]
pub struct Vec3 {
    pub x: i64,
    pub y: i64,
    pub z: i64,
}

/// What marching the probe ray through one candidate's shape reported.
///
/// `deepest_point_distance` is the distance along the ray to the deepest
/// intersection point; it is the ranking key, smaller is closer.
#[derive(Clone, Copy, Debug, PartialEq, Eq, Structural)]
pub struct IntersectionResult {
    pub hit: bool,
    pub min_distance: i64,
    pub deepest_point_distance: i64,
    pub ray_origin: Vec3,
    pub ray_direction: Vec3,
}

/// A result survives filtering when it is a hit whose deepest point lies at
/// or beyond the distance floor.
pub open spec fn survives(r: IntersectionResult, floor: i64) -> bool {
    r.hit && r.deepest_point_distance >= floor
}

/// Two distances are tied when they differ by less than `eps`.
pub open spec fn tied(a: i64, b: i64, eps: i64) -> bool {
    -eps < a - b < eps
}

/// Executable form of `survives`.
pub fn is_surviving(r: &IntersectionResult, floor: i64) -> (b: bool)
    ensures
        b == survives(*r, floor),
{
    r.hit && r.deepest_point_distance >= floor
}

/// Executable form of `tied`, free of overflow for every pair of distances.
pub fn is_tied(a: i64, b: i64, eps: i64) -> (t: bool)
    ensures
        t == tied(a, b, eps),
{
    let d: i128 = (a as i128) - (b as i128);
    -(eps as i128) < d && d < (eps as i128)
}

} // verus!
