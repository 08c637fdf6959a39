//! One step of a light path: when it goes on and how it ends.

use crate::hittable::{HitRecord, Hittable};
use crate::material::Material;
use crate::scalar::INFINITY;
use vstd::prelude::*;

verus! {

/// The lower bound of every hit test, the key of 0.001: a scattered ray
/// starts on a surface, and rounding must not make it hit that surface
/// again at once.
pub const T_MIN: i64 = 0x3F50_624D_D2F1_A9FC;

/// The upper bound of every hit test, the key of positive infinity.
pub const T_MAX: i64 = INFINITY;

/// What became of a ray that was to be traced at some depth.
#[derive(Debug, PartialEq)]
pub enum Trace<C, R> {
    /// The depth had run out and no ray was sent. The path is black.
    Exhausted,
    /// The ray hit nothing. The path takes the colour of the background.
    Escaped,
    /// The ray hit a surface that swallowed it. The path is black.
    Absorbed,
    /// The ray hit a surface that sent it on. The path takes `attenuation`
    /// times the colour of `scattered`, traced at `depth`.
    Bounce { attenuation: C, scattered: R, depth: i32 },
}

/// What a ray that hit a surface at `depth` becomes, given what the
/// material made of it.
pub open spec fn spec_after_scatter<C, R>(depth: i32, outcome: Option<(C, R)>) -> Trace<C, R> {
    if depth <= 0 {
        Trace::Exhausted
    } else {
        match outcome {
            None => Trace::Absorbed,
            Some((attenuation, scattered)) => Trace::Bounce {
                attenuation,
                scattered,
                depth: (depth - 1) as i32,
            },
        }
    }
}

/// What a ray that hit a surface at `depth` becomes, given what the
/// material made of it: absorbed, or sent on one level further down.
pub fn after_scatter<C, R>(depth: i32, outcome: Option<(C, R)>) -> (out: Trace<C, R>)
    ensures
        out == spec_after_scatter(depth, outcome),
{
    if depth <= 0 {
        Trace::Exhausted
    } else {
        match outcome {
            None => Trace::Absorbed,
            Some((attenuation, scattered)) => Trace::Bounce {
                attenuation,
                scattered,
                depth: depth - 1,
            },
        }
    }
}

/// `out` may come of tracing a ray at `depth`: nothing but exhaustion
/// without depth, and with depth no bounce but to the level below.
pub open spec fn steps_down<C, R>(depth: i32, out: Trace<C, R>) -> bool {
    if depth <= 0 {
        out is Exhausted
    } else {
        out !is Exhausted && (out is Bounce ==> out->depth == depth - 1)
    }
}

/// `out` is what `after_scatter` makes of something that the material of `rec`
/// may answer when it is asked to scatter `r` at `rec`.
pub open spec fn scattered_by_material<R, V, M: Material<R, V>>(
    depth: i32,
    r: &R,
    rec: HitRecord<V, M>,
    out: Trace<M::Color, R>,
) -> bool {
    exists|outcome: Option<(M::Color, R)>|
        call_ensures(M::scatter, (&rec.mat, r, &rec), outcome) && out == spec_after_scatter(
            depth,
            outcome,
        )
}

/// `out` may come of tracing `r` into `world` at `depth`: exhaustion without
/// depth, escape where the scene reports no hit between `T_MIN` and `T_MAX`,
/// and otherwise what the material at the hit makes of the ray.
pub open spec fn is_trace<H, M>(world: &H, r: &H::Ray, depth: i32, out: Trace<M::Color, H::Ray>) -> bool where
    H: Hittable<Material = M>,
    M: Material<H::Ray, H::Vector>,
 {
    if depth <= 0 {
        out == Trace::<M::Color, H::Ray>::Exhausted
    } else {
        match world.spec_hit(r, T_MIN, T_MAX) {
            None => out == Trace::<M::Color, H::Ray>::Escaped,
            Some(rec) => scattered_by_material(depth, r, rec, out),
        }
    }
}

/// Traces `r` into `world` at `depth`.
///
/// With no depth left nothing is done. Otherwise the scene is asked for the
/// nearest hit between `T_MIN` and `T_MAX`; a ray that hits nothing
/// escapes, and one that hits is handed to the material at the hit, which
/// absorbs it or sends it on at one level less.
pub fn trace<H, M>(world: &H, r: &H::Ray, depth: i32) -> (out: Trace<M::Color, H::Ray>) where
    H: Hittable<Material = M>,
    M: Material<H::Ray, H::Vector>,

    ensures
        is_trace(world, r, depth, out),
        steps_down(depth, out),
{
    if depth <= 0 {
        return Trace::Exhausted;
    }
    match world.hit(r, T_MIN, T_MAX) {
        None => Trace::Escaped,
        Some(rec) => after_scatter(depth, rec.mat.scatter(r, &rec)),
    }
}

/// Why a path ended. Only a path that escaped carries light: the other two
/// are black.
#[derive(Clone, Copy, Debug, PartialEq, Eq)]
pub enum Ending {
    /// The depth ran out.
    Exhausted,
    /// The last ray left the scene and takes the colour of the background.
    Escaped,
    /// A surface swallowed the last ray.
    Absorbed,
}

/// A path from its first ray to its end.
///
/// The colour of the path is the colour of its ending, multiplied by the
/// attenuations from the last bounce back to the first.
#[derive(Debug, PartialEq)]
pub struct Trail<C, R> {
    /// The attenuation of each bounce, from the first bounce to the last.
    pub attenuations: Vec<C>,
    /// The ray on which the path ended: the one that escaped, that was
    /// absorbed, or that was not sent for want of depth.
    pub last: R,
    /// Why the path ended.
    pub ending: Ending,
}

/// A path that starts with `r` at `depth` may make the bounces that
/// attenuate by `attenuations`, in this order, and then end on `last` with
/// `ending`: some trace of `r` either ends the path, or is the first bounce
/// and sends on a ray from which the rest of the path may start.
pub open spec fn is_trail<H, M>(
    world: &H,
    r: H::Ray,
    depth: i32,
    attenuations: Seq<M::Color>,
    last: H::Ray,
    ending: Ending,
) -> bool where H: Hittable<Material = M>, M: Material<H::Ray, H::Vector>
    decreases depth,
{
    exists|out: Trace<M::Color, H::Ray>| #[trigger]
        is_trace(world, &r, depth, out) && match out {
            Trace::Exhausted => attenuations.len() == 0 && last == r && ending == Ending::Exhausted,
            Trace::Escaped => attenuations.len() == 0 && last == r && ending == Ending::Escaped,
            Trace::Absorbed => attenuations.len() == 0 && last == r && ending == Ending::Absorbed,
            Trace::Bounce { attenuation, scattered, depth: left } => {
                &&& 0 <= left < depth
                &&& attenuations.len() > 0
                &&& attenuations[0] == attenuation
                &&& is_trail(world, scattered, left, attenuations.drop_first(), last, ending)
            },
        }
}

/// Follows the path that starts with `r` at `depth` to its end.
///
/// The ray is traced, and then the ray that it was scattered into, one
/// level further down each time, until a ray escapes or is absorbed or the
/// depth has run out. No path makes more bounces than its depth, and a path
/// is exhausted exactly when it has made that many.
pub fn follow<H, M>(world: &H, r: H::Ray, depth: i32) -> (trail: Trail<M::Color, H::Ray>) where
    H: Hittable<Material = M>,
    M: Material<H::Ray, H::Vector>,

    ensures
        is_trail(world, r, depth, trail.attenuations@, trail.last, trail.ending),
        depth <= 0 ==> trail.attenuations@.len() == 0,
        depth > 0 ==> trail.attenuations@.len() <= depth,
        trail.ending == Ending::Exhausted <==> trail.attenuations@.len() >= depth,
{
    let mut attenuations: Vec<M::Color> = Vec::new();
    let mut ray = r;
    let mut left = depth;
    loop
        invariant
            left <= depth,
            depth > 0 ==> left >= 0,
            attenuations@.len() == depth - left,
            // Whatever the rest of the path is, the bounces made so far and
            // the rest make up a path from `r`.
            forall|rest: Seq<M::Color>, last: H::Ray, ending: Ending| #[trigger]
                is_trail(world, ray, left, rest, last, ending) ==> is_trail(
                    world,
                    r,
                    depth,
                    attenuations@ + rest,
                    last,
                    ending,
                ),
        decreases left,
    {
        let ghost made = attenuations@;
        let ghost from = ray;
        let out = trace(world, &ray, left);
        let ending = match out {
            Trace::Bounce { attenuation, scattered, depth: below } => {
                proof {
                    let bounce = Trace::<M::Color, H::Ray>::Bounce {
                        attenuation,
                        scattered,
                        depth: below,
                    };
                    assert forall|rest: Seq<M::Color>, last: H::Ray, ending: Ending| #[trigger]
                        is_trail(world, scattered, below, rest, last, ending) implies is_trail(
                        world,
                        r,
                        depth,
                        made.push(attenuation) + rest,
                        last,
                        ending,
                    ) by {
                        // The bounce is a trace of the ray that the loop
                        // came in with, so the bounce and the rest make up a
                        // path from that ray.
                        let longer = seq![attenuation] + rest;
                        assert(longer.drop_first() == rest);
                        assert(is_trace(world, &from, left, bounce));
                        assert(is_trail(world, from, left, longer, last, ending));
                        assert(made + longer == made.push(attenuation) + rest);
                    }
                }
                attenuations.push(attenuation);
                ray = scattered;
                left = below;
                continue;
            },
            Trace::Exhausted => Ending::Exhausted,
            Trace::Escaped => Ending::Escaped,
            Trace::Absorbed => Ending::Absorbed,
        };
        proof {
            assert(is_trail(world, ray, left, Seq::<M::Color>::empty(), ray, ending));
        }
        return Trail { attenuations, last: ray, ending };
    }
}

/// `outs` is a path that starts at `depth`: its first member came of
/// tracing at `depth`, and each later one of tracing the ray that the member
/// before it sent on, at the depth that was left.
pub open spec fn is_path<C, R>(depth: i32, outs: Seq<Trace<C, R>>) -> bool {
    &&& outs.len() > 0 ==> steps_down(depth, outs[0])
    &&& forall|i: int|
        0 < i < outs.len() ==> (#[trigger] outs[i - 1]) is Bounce && steps_down(
            outs[i - 1]->depth,
            outs[i],
        )
}

/// Bounded recursion: the bounces of a path count its depth down to zero,
/// so a path of depth `depth` holds at most `depth` of them, and whatever
/// follows the last of that many is exhausted.
pub proof fn lemma_path_is_bounded<C, R>(depth: i32, outs: Seq<Trace<C, R>>)
    requires
        is_path(depth, outs),
    ensures
        forall|i: int|
            0 <= i < outs.len() && (#[trigger] outs[i]) is Bounce ==> outs[i]->depth == depth - 1
                - i && i < depth,
        forall|i: int| 0 <= i < outs.len() ==> ((#[trigger] outs[i]) is Exhausted <==> i >= depth),
    decreases outs.len(),
{
    if outs.len() > 1 {
        let n = outs.len() - 1;
        assert(is_path(depth, outs.take(n))) by {
            assert forall|i: int| 0 < i < n implies (#[trigger] outs.take(n)[i - 1]) is Bounce
                && steps_down(outs.take(n)[i - 1]->depth, outs.take(n)[i]) by {
                assert(outs.take(n)[i - 1] == outs[i - 1]);
            }
        }
        lemma_path_is_bounded(depth, outs.take(n));
        assert forall|i: int| 0 <= i < n implies outs.take(n)[i] == #[trigger] outs[i] by {}
        assert(outs.take(n)[n - 1]->depth == depth - n);
    }
}

} // verus!
