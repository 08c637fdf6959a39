use pathtracer::hittable::{HitRecord, Hittable, HittableList};
use pathtracer::integrator::{after_scatter, follow, trace, Ending, Trace, Trail, T_MAX, T_MIN};
use pathtracer::material::Material;
use pathtracer::scalar::key;

/// A ray in these tests is the count of the surfaces it has left.
type Ray = u32;

/// A surface that sends every ray on, tagged with a number, or that
/// swallows every ray.
#[derive(Clone, Copy, Debug, PartialEq)]
enum Paint {
    Mirror(u8),
    Sink,
}

impl Material<Ray, ()> for Paint {
    type Color = u8;

    fn scatter(&self, r_in: &Ray, _rec: &HitRecord<(), Paint>) -> Option<(u8, Ray)> {
        match self {
            Paint::Mirror(tag) => Some((*tag, r_in + 1)),
            Paint::Sink => None,
        }
    }
}

/// A surface that crosses every ray at one fixed key.
struct Wall {
    at: i64,
    paint: Paint,
}

impl Hittable for Wall {
    type Ray = Ray;
    type Vector = ();
    type Material = Paint;

    fn spec_hit(&self, _r: &Ray, _t_min: i64, _t_max: i64) -> Option<HitRecord<(), Paint>> {
        unreachable!()
    }

    fn hit(&self, _r: &Ray, t_min: i64, t_max: i64) -> Option<HitRecord<(), Paint>> {
        if t_min < self.at && self.at < t_max {
            Some(HitRecord { p: (), normal: (), mat: self.paint, t: self.at, front_face: true })
        } else {
            None
        }
    }
}

/// A scene that must not be asked.
struct Untouchable;

impl Hittable for Untouchable {
    type Ray = Ray;
    type Vector = ();
    type Material = Paint;

    fn spec_hit(&self, _r: &Ray, _t_min: i64, _t_max: i64) -> Option<HitRecord<(), Paint>> {
        unreachable!()
    }

    fn hit(&self, _r: &Ray, _t_min: i64, _t_max: i64) -> Option<HitRecord<(), Paint>> {
        panic!("a ray was sent")
    }
}

/// A scene that tells the bounds it was asked with: the tag of its paint
/// is 1 when they were `T_MIN` and `T_MAX`, and 0 otherwise.
struct Probe;

impl Hittable for Probe {
    type Ray = Ray;
    type Vector = ();
    type Material = Paint;

    fn spec_hit(&self, _r: &Ray, _t_min: i64, _t_max: i64) -> Option<HitRecord<(), Paint>> {
        unreachable!()
    }

    fn hit(&self, _r: &Ray, t_min: i64, t_max: i64) -> Option<HitRecord<(), Paint>> {
        let tag = if t_min == T_MIN && t_max == T_MAX { 1 } else { 0 };
        Some(HitRecord { p: (), normal: (), mat: Paint::Mirror(tag), t: t_min + 1, front_face: true })
    }
}

fn wall(at: f64, paint: Paint) -> HittableList<Wall> {
    let mut world = HittableList::new();
    world.add(Wall { at: key(at.to_bits()), paint });
    world
}

/// Follows a path to its end and tells how many bounces it made and how it
/// ended.
fn run(world: &HittableList<Wall>, depth: i32) -> (u32, Trace<u8, Ray>) {
    let mut ray = 0;
    let mut depth = depth;
    let mut bounces = 0;
    loop {
        match trace(world, &ray, depth) {
            Trace::Bounce { scattered, depth: left, .. } => {
                assert_eq!(left, depth - 1);
                ray = scattered;
                depth = left;
                bounces += 1;
            }
            end => return (bounces, end),
        }
    }
}

#[test]
fn the_bounds_are_the_keys_of_their_doubles() {
    assert_eq!(T_MIN, key(0.001f64.to_bits()));
    assert_eq!(T_MAX, key(f64::INFINITY.to_bits()));
}

#[test]
fn nothing_is_sent_without_depth() {
    assert_eq!(trace(&Untouchable, &0, 0), Trace::Exhausted);
    assert_eq!(trace(&Untouchable, &0, -1), Trace::Exhausted);
    assert_eq!(trace(&Untouchable, &0, i32::MIN), Trace::Exhausted);
}

#[test]
fn the_scene_is_asked_between_the_two_bounds() {
    assert_eq!(
        trace(&Probe, &0, 1),
        Trace::Bounce { attenuation: 1, scattered: 1, depth: 0 }
    );
}

#[test]
fn a_ray_that_hits_nothing_escapes() {
    let empty: HittableList<Wall> = HittableList::new();
    assert_eq!(trace(&empty, &0, 1), Trace::Escaped);
    assert_eq!(trace(&empty, &0, 50), Trace::Escaped);
    assert_eq!(trace(&empty, &0, i32::MAX), Trace::Escaped);
}

#[test]
fn a_miss_at_depth_one_escapes_to_the_background() {
    let behind = wall(-3.0, Paint::Mirror(9));
    assert_eq!(trace(&behind, &0, 1), Trace::Escaped);
    assert_eq!(run(&behind, 1), (0, Trace::Escaped));
}

#[test]
fn a_surface_nearer_than_the_lower_bound_is_not_hit() {
    assert_eq!(trace(&wall(0.0, Paint::Sink), &0, 5), Trace::Escaped);
    assert_eq!(trace(&wall(0.0009, Paint::Sink), &0, 5), Trace::Escaped);
    assert_eq!(trace(&wall(0.001, Paint::Sink), &0, 5), Trace::Escaped);
    assert_eq!(trace(&wall(0.0011, Paint::Sink), &0, 5), Trace::Absorbed);
}

#[test]
fn a_surface_at_infinity_is_not_hit() {
    assert_eq!(trace(&wall(f64::INFINITY, Paint::Sink), &0, 5), Trace::Escaped);
    assert_eq!(trace(&wall(f64::NAN, Paint::Sink), &0, 5), Trace::Escaped);
    assert_eq!(trace(&wall(f64::MAX, Paint::Sink), &0, 5), Trace::Absorbed);
}

#[test]
fn an_absorbed_ray_ends_the_path() {
    let world = wall(2.0, Paint::Sink);
    assert_eq!(trace(&world, &0, 1), Trace::Absorbed);
    assert_eq!(trace(&world, &0, 50), Trace::Absorbed);
    assert_eq!(run(&world, 50), (0, Trace::Absorbed));
}

#[test]
fn a_scattered_ray_goes_on_one_level_down() {
    let world = wall(2.0, Paint::Mirror(7));
    assert_eq!(
        trace(&world, &0, 50),
        Trace::Bounce { attenuation: 7, scattered: 1, depth: 49 }
    );
    assert_eq!(
        trace(&world, &41, 1),
        Trace::Bounce { attenuation: 7, scattered: 42, depth: 0 }
    );
    assert_eq!(
        trace(&world, &0, i32::MAX),
        Trace::Bounce { attenuation: 7, scattered: 1, depth: i32::MAX - 1 }
    );
}

#[test]
fn the_material_of_the_nearest_surface_is_asked() {
    let mut world = HittableList::new();
    world.add(Wall { at: key(5.0f64.to_bits()), paint: Paint::Mirror(1) });
    world.add(Wall { at: key(2.0f64.to_bits()), paint: Paint::Sink });
    world.add(Wall { at: key(9.0f64.to_bits()), paint: Paint::Mirror(3) });
    assert_eq!(trace(&world, &0, 50), Trace::Absorbed);
    world.add(Wall { at: key(1.5f64.to_bits()), paint: Paint::Mirror(4) });
    assert_eq!(
        trace(&world, &0, 50),
        Trace::Bounce { attenuation: 4, scattered: 1, depth: 49 }
    );
}

#[test]
fn a_path_of_scatterings_ends_after_its_depth() {
    let world = wall(2.0, Paint::Mirror(7));
    assert_eq!(run(&world, 50), (50, Trace::Exhausted));
    assert_eq!(run(&world, 1), (1, Trace::Exhausted));
    assert_eq!(run(&world, 0), (0, Trace::Exhausted));
    assert_eq!(run(&world, -7), (0, Trace::Exhausted));
}

#[test]
fn what_the_material_made_of_the_ray_decides_the_step() {
    assert_eq!(after_scatter::<u8, Ray>(3, None), Trace::Absorbed);
    assert_eq!(
        after_scatter(3, Some((200u8, 17u32))),
        Trace::Bounce { attenuation: 200, scattered: 17, depth: 2 }
    );
    assert_eq!(
        after_scatter(1, Some((200u8, 17u32))),
        Trace::Bounce { attenuation: 200, scattered: 17, depth: 0 }
    );
    assert_eq!(after_scatter(0, Some((200u8, 17u32))), Trace::Exhausted);
    assert_eq!(after_scatter::<u8, Ray>(0, None), Trace::Exhausted);
    assert_eq!(after_scatter(i32::MIN, Some((200u8, 17u32))), Trace::Exhausted);
}

/// A surface that sends the first rays on, each tagged with its count, and
/// swallows the ray that has left `patience` surfaces.
struct Fading {
    patience: u32,
}

#[derive(Clone, Copy, Debug, PartialEq)]
struct Fade {
    patience: u32,
}

impl Material<Ray, ()> for Fade {
    type Color = u8;

    fn scatter(&self, r_in: &Ray, _rec: &HitRecord<(), Fade>) -> Option<(u8, Ray)> {
        if *r_in < self.patience {
            Some((*r_in as u8 + 1, r_in + 1))
        } else {
            None
        }
    }
}

impl Hittable for Fading {
    type Ray = Ray;
    type Vector = ();
    type Material = Fade;

    fn spec_hit(&self, _r: &Ray, _t_min: i64, _t_max: i64) -> Option<HitRecord<(), Fade>> {
        unreachable!()
    }

    fn hit(&self, r: &Ray, _t_min: i64, _t_max: i64) -> Option<HitRecord<(), Fade>> {
        if *r == 100 {
            None
        } else {
            Some(HitRecord {
                p: (),
                normal: (),
                mat: Fade { patience: self.patience },
                t: T_MIN + 1,
                front_face: true,
            })
        }
    }
}

#[test]
fn a_path_without_depth_is_exhausted_on_its_first_ray() {
    assert_eq!(
        follow(&Untouchable, 3, 0),
        Trail { attenuations: vec![], last: 3, ending: Ending::Exhausted }
    );
    assert_eq!(
        follow(&Untouchable, 3, -5),
        Trail { attenuations: vec![], last: 3, ending: Ending::Exhausted }
    );
    assert_eq!(
        follow(&Untouchable, 3, i32::MIN),
        Trail { attenuations: vec![], last: 3, ending: Ending::Exhausted }
    );
}

#[test]
fn a_path_that_hits_nothing_escapes_on_its_first_ray() {
    let empty: HittableList<Wall> = HittableList::new();
    assert_eq!(follow(&empty, 3, 1), Trail { attenuations: vec![], last: 3, ending: Ending::Escaped });
    assert_eq!(follow(&empty, 3, 50), Trail { attenuations: vec![], last: 3, ending: Ending::Escaped });
}

#[test]
fn a_path_that_is_swallowed_at_once_has_no_bounce() {
    let world = wall(2.0, Paint::Sink);
    assert_eq!(follow(&world, 3, 50), Trail { attenuations: vec![], last: 3, ending: Ending::Absorbed });
}

#[test]
fn a_path_keeps_its_attenuations_in_the_order_of_its_bounces() {
    let world = Fading { patience: 4 };
    assert_eq!(
        follow(&world, 0, 50),
        Trail { attenuations: vec![1, 2, 3, 4], last: 4, ending: Ending::Absorbed }
    );
    assert_eq!(
        follow(&world, 2, 50),
        Trail { attenuations: vec![3, 4], last: 4, ending: Ending::Absorbed }
    );
    assert_eq!(
        follow(&world, 4, 50),
        Trail { attenuations: vec![], last: 4, ending: Ending::Absorbed }
    );
}

#[test]
fn a_path_stops_when_its_depth_has_run_out() {
    let world = Fading { patience: 4 };
    assert_eq!(
        follow(&world, 0, 3),
        Trail { attenuations: vec![1, 2, 3], last: 3, ending: Ending::Exhausted }
    );
    assert_eq!(
        follow(&world, 0, 4),
        Trail { attenuations: vec![1, 2, 3, 4], last: 4, ending: Ending::Exhausted }
    );
    assert_eq!(
        follow(&world, 0, 5),
        Trail { attenuations: vec![1, 2, 3, 4], last: 4, ending: Ending::Absorbed }
    );
    assert_eq!(
        follow(&world, 0, 1),
        Trail { attenuations: vec![1], last: 1, ending: Ending::Exhausted }
    );
}

#[test]
fn a_path_ends_where_its_ray_escapes() {
    let world = Fading { patience: 200 };
    let trail = follow(&world, 97, 50);
    assert_eq!(
        trail,
        Trail { attenuations: vec![98, 99, 100], last: 100, ending: Ending::Escaped }
    );
}

#[test]
fn a_path_of_scatterings_makes_as_many_bounces_as_its_depth() {
    let world = wall(2.0, Paint::Mirror(7));
    for depth in [1, 2, 7, 50] {
        let trail = follow(&world, 0, depth);
        assert_eq!(trail.attenuations, vec![7; depth as usize]);
        assert_eq!(trail.last, depth as u32);
        assert_eq!(trail.ending, Ending::Exhausted);
    }
}

#[test]
fn following_a_path_and_tracing_it_step_by_step_agree() {
    let world = Fading { patience: 6 };
    for depth in -1..10 {
        let trail = follow(&world, 0, depth);
        let mut ray = 0;
        let mut left = depth;
        let mut attenuations = Vec::new();
        let ending = loop {
            match trace(&world, &ray, left) {
                Trace::Bounce { attenuation, scattered, depth } => {
                    attenuations.push(attenuation);
                    ray = scattered;
                    left = depth;
                }
                Trace::Exhausted => break Ending::Exhausted,
                Trace::Escaped => break Ending::Escaped,
                Trace::Absorbed => break Ending::Absorbed,
            }
        };
        assert_eq!(trail, Trail { attenuations, last: ray, ending });
    }
}

#[test]
fn a_very_deep_path_is_followed_to_its_end() {
    let world = wall(2.0, Paint::Mirror(7));
    let trail = follow(&world, 0, 1_000_000);
    assert_eq!(trail.attenuations.len(), 1_000_000);
    assert!(trail.attenuations.iter().all(|&a| a == 7));
    assert_eq!(trail.last, 1_000_000);
    assert_eq!(trail.ending, Ending::Exhausted);
}
