//! The quadratic of a ray against a sphere: which of its roots is the hit.

use crate::scalar::{is_number, lt, spec_lt};
use vstd::prelude::*;

verus! {

/// `t` lies strictly between the two bounds.
pub open spec fn inside(t: i64, t_min: i64, t_max: i64) -> bool {
    t_min < t < t_max
}

/// The root that counts as the hit.
///
/// With a negative discriminant the ray passes the sphere by. Otherwise
/// the roots are tried in the order `near`, `far`, and the first one inside
/// the open interval is taken.
pub open spec fn spec_hit_root(
    discriminant: i64,
    near: i64,
    far: i64,
    t_min: i64,
    t_max: i64,
) -> Option<i64> {
    if spec_lt(discriminant, 0) {
        None
    } else if inside(near, t_min, t_max) {
        Some(near)
    } else if inside(far, t_min, t_max) {
        Some(far)
    } else {
        None
    }
}

/// Picks the hit among the roots of the quadratic.
///
/// All five arguments are keys: of the discriminant, of the two roots and
/// of the bounds. Where the discriminant is negative the roots are not
/// looked at.
pub fn hit_root(discriminant: i64, near: i64, far: i64, t_min: i64, t_max: i64) -> (root: Option<
    i64,
>)
    ensures
        root == spec_hit_root(discriminant, near, far, t_min, t_max),
{
    if lt(discriminant, 0) {
        None
    } else if t_min < near && near < t_max {
        Some(near)
    } else if t_min < far && far < t_max {
        Some(far)
    } else {
        None
    }
}

/// Between bounds that are numbers lies only what is a number, and lies
/// there exactly when it compares so as a double.
pub proof fn lemma_inside_as_doubles(t: i64, t_min: i64, t_max: i64)
    requires
        is_number(t_min),
        is_number(t_max),
    ensures
        inside(t, t_min, t_max) <==> spec_lt(t_min, t) && spec_lt(t, t_max),
        inside(t, t_min, t_max) ==> is_number(t),
{
}

/// With the roots in ascending order, the hit is the least root inside the
/// interval, and there is a hit exactly when a root lies inside.
pub proof fn lemma_hit_root_is_least(discriminant: i64, near: i64, far: i64, t_min: i64, t_max: i64)
    requires
        !spec_lt(discriminant, 0),
        near <= far,
    ensures
        spec_hit_root(discriminant, near, far, t_min, t_max) is Some <==> inside(
            near,
            t_min,
            t_max,
        ) || inside(far, t_min, t_max),
        spec_hit_root(discriminant, near, far, t_min, t_max) matches Some(t) ==> {
            &&& t == near || t == far
            &&& inside(t, t_min, t_max)
            &&& inside(near, t_min, t_max) ==> t <= near
            &&& inside(far, t_min, t_max) ==> t <= far
        },
{
}

/// A ray that starts inside the sphere hits it from within: with one root
/// behind the origin and one ahead, and the lower bound at zero, the hit is
/// the root ahead, so long as it lies below the upper bound.
pub proof fn lemma_hit_from_inside(discriminant: i64, near: i64, far: i64, t_max: i64)
    requires
        !spec_lt(discriminant, 0),
        near < 0 < far < t_max,
    ensures
        spec_hit_root(discriminant, near, far, 0, t_max) == Some(far),
{
}

/// With the roots in ascending order, lowering the upper bound hides the
/// hit or leaves it as it was: it never uncovers the other root.
pub proof fn lemma_hit_root_lowered(
    discriminant: i64,
    near: i64,
    far: i64,
    t_min: i64,
    lower: i64,
    upper: i64,
)
    requires
        near <= far,
        lower <= upper,
    ensures
        spec_hit_root(discriminant, near, far, t_min, lower) == match spec_hit_root(
            discriminant,
            near,
            far,
            t_min,
            upper,
        ) {
            Some(t) => if t < lower {
                Some(t)
            } else {
                None
            },
            None => None,
        },
{
}

} // verus!
