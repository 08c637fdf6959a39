//! Hit records, the capability of being hit by a ray, and the scene list.

use crate::scalar::{lt, spec_lt};
use vstd::prelude::*;

verus! {

/// What is known of the place where a ray meets a surface.
///
/// `V` is the type of points and directions and `M` the handle of a
/// material; the record carries them and never looks inside. `t` is the key
/// of the ray's parameter at the meeting point.
#[derive(Debug, PartialEq)]
pub struct HitRecord<V, M> {
    pub p: V,
    pub normal: V,
    pub mat: M,
    pub t: i64,
    pub front_face: bool,
}

impl<V, M> HitRecord<V, M> {
    /// Orients the normal against the incoming ray.
    ///
    /// `incidence` is the key of the dot product of the ray's direction with
    /// the outward normal. The ray meets the front face when that product is
    /// negative; the record then keeps `outward`, and `inward` otherwise.
    pub fn set_face_normal(&mut self, incidence: i64, outward: V, inward: V)
        ensures
            final(self).front_face == spec_lt(incidence, 0),
            final(self).normal == if spec_lt(incidence, 0) { outward } else { inward },
            final(self).p == old(self).p,
            final(self).mat == old(self).mat,
            final(self).t == old(self).t,
    {
        if lt(incidence, 0) {
            self.front_face = true;
            self.normal = outward;
        } else {
            self.front_face = false;
            self.normal = inward;
        }
    }
}

/// Something a ray can hit: a primitive, or an aggregate of them.
///
/// A hit test looks along the ray for a crossing whose parameter lies
/// strictly between `t_min` and `t_max`, all three taken as keys; a crossing
/// on either boundary does not count. What the implementor reports is a
/// function of the ray and the two bounds, named by `spec_hit`. An
/// implementor that is not verified gives `spec_hit` a body that panics: it
/// is never run.
pub trait Hittable {
    /// The rays that are tested.
    type Ray;

    /// The points and directions of a record.
    type Vector;

    /// The handle by which a record names the material that was hit.
    type Material;

    /// The record that `hit` reports, or `None` where it reports a miss.
    spec fn spec_hit(&self, r: &Self::Ray, t_min: i64, t_max: i64) -> Option<
        HitRecord<Self::Vector, Self::Material>,
    >;

    /// Tests `r` against `self` between the two bounds.
    fn hit(&self, r: &Self::Ray, t_min: i64, t_max: i64) -> (rec: Option<
        HitRecord<Self::Vector, Self::Material>,
    >)
        ensures
            rec == self.spec_hit(r, t_min, t_max),
            rec matches Some(h) ==> t_min < h.t < t_max,
    ;
}

/// A scene: the things a ray may hit, in the order in which they were added.
pub struct HittableList<H> {
    objects: Vec<H>,
}

impl<H> View for HittableList<H> {
    type V = Seq<H>;

    closed spec fn view(&self) -> Seq<H> {
        self.objects@
    }
}

impl<H> HittableList<H> {
    /// A scene with nothing in it.
    pub fn new() -> (list: Self)
        ensures
            list@ == Seq::<H>::empty(),
    {
        HittableList { objects: Vec::new() }
    }

    /// Takes everything out of the scene.
    pub fn clear(&mut self)
        ensures
            final(self)@ == Seq::<H>::empty(),
    {
        self.objects.clear()
    }

    /// Adds `object` behind the members that are there.
    pub fn add(&mut self, object: H)
        ensures
            final(self)@ == old(self)@.push(object),
    {
        self.objects.push(object)
    }
}

/// The upper bound that is left once `best` has been found below `t_max`.
pub open spec fn closest_so_far<V, M>(best: Option<HitRecord<V, M>>, t_max: i64) -> i64 {
    match best {
        Some(h) => h.t,
        None => t_max,
    }
}

/// The record kept after the members of `objects` have been tried in order,
/// each against the bound that the members before it have left.
pub open spec fn scan<H: Hittable>(objects: Seq<H>, r: &H::Ray, t_min: i64, t_max: i64) -> Option<
    HitRecord<H::Vector, H::Material>,
>
    decreases objects.len(),
{
    if objects.len() == 0 {
        None
    } else {
        let best = scan(objects.drop_last(), r, t_min, t_max);
        match objects.last().spec_hit(r, t_min, closest_so_far(best, t_max)) {
            Some(h) => Some(h),
            None => best,
        }
    }
}

impl<H: Hittable> Hittable for HittableList<H> {
    type Ray = H::Ray;

    type Vector = H::Vector;

    type Material = H::Material;

    open spec fn spec_hit(&self, r: &H::Ray, t_min: i64, t_max: i64) -> Option<
        HitRecord<H::Vector, H::Material>,
    > {
        scan(self@, r, t_min, t_max)
    }

    /// Tries every member, each against the closest hit found so far, and
    /// reports the last hit that was accepted.
    fn hit(&self, r: &H::Ray, t_min: i64, t_max: i64) -> (rec: Option<
        HitRecord<H::Vector, H::Material>,
    >)
        ensures
            rec == scan(self@, r, t_min, t_max),
    {
        let mut best: Option<HitRecord<H::Vector, H::Material>> = None;
        let mut closest: i64 = t_max;
        let mut i: usize = 0;
        while i < self.objects.len()
            invariant
                i <= self.objects.len(),
                best == scan(self@.take(i as int), r, t_min, t_max),
                closest == closest_so_far(best, t_max),
                closest <= t_max,
                best matches Some(h) ==> t_min < h.t < t_max,
            decreases self.objects.len() - i,
        {
            assert(self@.take(i + 1).drop_last() == self@.take(i as int));
            match self.objects[i].hit(r, t_min, closest) {
                Some(h) => {
                    closest = h.t;
                    best = Some(h);
                },
                None => {},
            }
            i += 1;
        }
        assert(self@.take(i as int) == self@);
        best
    }
}

/// `rec` where it lies below `bound`, and a miss otherwise.
pub open spec fn below<V, M>(rec: Option<HitRecord<V, M>>, bound: i64) -> Option<HitRecord<V, M>> {
    match rec {
        Some(h) => if h.t < bound {
            rec
        } else {
            None
        },
        None => None,
    }
}

/// `m` reports its first crossing of the ray above `t_min`.
///
/// Every hit lies above `t_min`, and lowering the upper bound hides the
/// reported hit or leaves it as it was: it never uncovers another one.
pub open spec fn reports_first_crossing<H: Hittable>(m: H, r: &H::Ray, t_min: i64) -> bool {
    &&& forall|b: i64| (#[trigger] m.spec_hit(r, t_min, b)) matches Some(h) ==> t_min < h.t
    &&& forall|a: i64, b: i64|
        #![trigger m.spec_hit(r, t_min, a), m.spec_hit(r, t_min, b)]
        a <= b ==> m.spec_hit(r, t_min, a) == below(m.spec_hit(r, t_min, b), a)
}

/// Every member of `objects` reports its first crossing.
pub open spec fn all_report_first_crossing<H: Hittable>(
    objects: Seq<H>,
    r: &H::Ray,
    t_min: i64,
) -> bool {
    forall|i: int| 0 <= i < objects.len() ==> reports_first_crossing(#[trigger] objects[i], r, t_min)
}

/// Member `i` hits, no member hits nearer, and no member before it hits as
/// near.
pub open spec fn is_first_nearest<H: Hittable>(
    objects: Seq<H>,
    r: &H::Ray,
    t_min: i64,
    t_max: i64,
    i: int,
) -> bool {
    &&& 0 <= i < objects.len()
    &&& objects[i].spec_hit(r, t_min, t_max) matches Some(h)
    &&& forall|j: int|
        0 <= j < objects.len() ==> ((#[trigger] objects[j].spec_hit(r, t_min, t_max)) matches Some(
            g,
        ) ==> h.t <= g.t && (j < i ==> h.t < g.t))
}

/// No member of `objects` hits.
pub open spec fn all_miss<H: Hittable>(objects: Seq<H>, r: &H::Ray, t_min: i64, t_max: i64) -> bool {
    forall|j: int|
        0 <= j < objects.len() ==> (#[trigger] objects[j].spec_hit(r, t_min, t_max)) is None
}

/// The key of a reported hit.
pub open spec fn hit_key<V, M>(rec: Option<HitRecord<V, M>>) -> Option<i64> {
    match rec {
        Some(h) => Some(h.t),
        None => None,
    }
}

/// No two members of `objects` hit at the same key.
pub open spec fn hits_at_distinct_keys<H: Hittable>(
    objects: Seq<H>,
    r: &H::Ray,
    t_min: i64,
    t_max: i64,
) -> bool {
    forall|i: int, j: int|
        #![trigger objects[i].spec_hit(r, t_min, t_max), objects[j].spec_hit(r, t_min, t_max)]
        0 <= i < objects.len() && 0 <= j < objects.len() && i != j ==> hit_key(
            objects[i].spec_hit(r, t_min, t_max),
        ) is None || hit_key(objects[i].spec_hit(r, t_min, t_max)) != hit_key(
            objects[j].spec_hit(r, t_min, t_max),
        )
}

/// What holds of a sequence holds of it without its last member.
proof fn lemma_front_reports<H: Hittable>(objects: Seq<H>, r: &H::Ray, t_min: i64)
    requires
        all_report_first_crossing(objects, r, t_min),
        objects.len() > 0,
    ensures
        all_report_first_crossing(objects.drop_last(), r, t_min),
        reports_first_crossing(objects.last(), r, t_min),
{
    let front = objects.drop_last();
    assert forall|j: int| 0 <= j < front.len() implies reports_first_crossing(
        #[trigger] front[j],
        r,
        t_min,
    ) by {
        assert(front[j] == objects[j]);
    }
}

/// The member whose report the scan keeps.
proof fn lemma_scan_witness<H: Hittable>(objects: Seq<H>, r: &H::Ray, t_min: i64, t_max: i64) -> (i:
    int)
    requires
        all_report_first_crossing(objects, r, t_min),
    ensures
        match scan(objects, r, t_min, t_max) {
            Some(h) => is_first_nearest(objects, r, t_min, t_max, i) && objects[i].spec_hit(
                r,
                t_min,
                t_max,
            ) == Some(h),
            None => all_miss(objects, r, t_min, t_max),
        },
    decreases objects.len(),
{
    if objects.len() == 0 {
        0
    } else {
        let front = objects.drop_last();
        let m = objects.last();
        let last = objects.len() - 1;
        lemma_front_reports(objects, r, t_min);
        let k = lemma_scan_witness(front, r, t_min, t_max);
        let bound = closest_so_far(scan(front, r, t_min, t_max), t_max);
        assert forall|j: int| 0 <= j < last implies front[j].spec_hit(r, t_min, t_max)
            == #[trigger] objects[j].spec_hit(r, t_min, t_max) by {
            assert(front[j] == objects[j]);
        }
        // A hit that was kept lies below the bound it was found under.
        assert(bound <= t_max) by {
            if scan(front, r, t_min, t_max) is Some {
                assert(front[k].spec_hit(r, t_min, t_max) == below(
                    front[k].spec_hit(r, t_min, t_max),
                    t_max,
                ));
            }
        }
        // What the last member reports under the bound that is left is what
        // it reports under `t_max`, unless that lies at or beyond the bound.
        assert(m.spec_hit(r, t_min, bound) == below(m.spec_hit(r, t_min, t_max), bound));
        if m.spec_hit(r, t_min, bound) is Some {
            last
        } else {
            k
        }
    }
}

/// What the scan keeps lies above `t_min`.
proof fn lemma_scan_above<H: Hittable>(objects: Seq<H>, r: &H::Ray, t_min: i64, t_max: i64)
    requires
        all_report_first_crossing(objects, r, t_min),
    ensures
        scan(objects, r, t_min, t_max) matches Some(h) ==> t_min < h.t,
    decreases objects.len(),
{
    if objects.len() > 0 {
        lemma_front_reports(objects, r, t_min);
        lemma_scan_above(objects.drop_last(), r, t_min, t_max);
    }
}

/// Under a lower bound the scan keeps what it kept, or nothing.
proof fn lemma_scan_lowered<H: Hittable>(objects: Seq<H>, r: &H::Ray, t_min: i64, a: i64, b: i64)
    requires
        all_report_first_crossing(objects, r, t_min),
        a <= b,
    ensures
        scan(objects, r, t_min, a) == below(scan(objects, r, t_min, b), a),
    decreases objects.len(),
{
    if objects.len() > 0 {
        let front = objects.drop_last();
        let m = objects.last();
        lemma_front_reports(objects, r, t_min);
        lemma_scan_lowered(front, r, t_min, a, b);
        lemma_scan_lowered(front, r, t_min, b, b);
        // The bound that the members before the last leave under `a` is no
        // higher than the one they leave under `b`.
        let bound_a = closest_so_far(scan(front, r, t_min, a), a);
        let bound_b = closest_so_far(scan(front, r, t_min, b), b);
        assert(m.spec_hit(r, t_min, bound_a) == below(m.spec_hit(r, t_min, bound_b), bound_a));
        assert(m.spec_hit(r, t_min, bound_b) == below(m.spec_hit(r, t_min, bound_b), bound_b));
    }
}

/// Nearest hit: where every member reports its first crossing, the scene
/// reports what its first nearest member reports, and a miss exactly where
/// every member misses.
pub proof fn lemma_hit_is_first_nearest<H: Hittable>(
    list: &HittableList<H>,
    r: &H::Ray,
    t_min: i64,
    t_max: i64,
)
    requires
        all_report_first_crossing(list@, r, t_min),
    ensures
        list.spec_hit(r, t_min, t_max) is None <==> all_miss(list@, r, t_min, t_max),
        list.spec_hit(r, t_min, t_max) is Some ==> exists|i: int|
            is_first_nearest(list@, r, t_min, t_max, i),
        forall|i: int|
            is_first_nearest(list@, r, t_min, t_max, i) ==> list.spec_hit(r, t_min, t_max)
                == list@[i].spec_hit(r, t_min, t_max),
{
    let k = lemma_scan_witness(list@, r, t_min, t_max);
    // Two members that are both first nearest are the same member.
    assert forall|i: int| is_first_nearest(list@, r, t_min, t_max, i) implies i == k by {
        assert(list@[i].spec_hit(r, t_min, t_max) is Some);
        assert(list@[k].spec_hit(r, t_min, t_max) is Some);
    }
}

/// A place in `a` of the member at place `j` of `b`.
proof fn lemma_shared_member<H>(a: Seq<H>, b: Seq<H>, j: int) -> (i: int)
    requires
        a.to_multiset() == b.to_multiset(),
        0 <= j < b.len(),
    ensures
        0 <= i < a.len(),
        a[i] == b[j],
{
    a.to_multiset_ensures();
    b.to_multiset_ensures();
    assert(b.contains(b[j]));
    assert(a.to_multiset().count(b[j]) > 0);
    choose|i: int| 0 <= i < a.len() && a[i] == b[j]
}

/// What holds of every member of `a` holds of every member of `b`.
proof fn lemma_same_members_report<H: Hittable>(a: Seq<H>, b: Seq<H>, r: &H::Ray, t_min: i64)
    requires
        a.to_multiset() == b.to_multiset(),
        all_report_first_crossing(a, r, t_min),
    ensures
        all_report_first_crossing(b, r, t_min),
{
    assert forall|j: int| 0 <= j < b.len() implies reports_first_crossing(
        #[trigger] b[j],
        r,
        t_min,
    ) by {
        let i = lemma_shared_member(a, b, j);
        assert(reports_first_crossing(a[i], r, t_min));
    }
}

/// Insertion order: two scenes with the same members, each reporting its
/// first crossing, hit at the same key or both miss.
pub proof fn lemma_hit_key_order_independent<H: Hittable>(
    first: &HittableList<H>,
    second: &HittableList<H>,
    r: &H::Ray,
    t_min: i64,
    t_max: i64,
)
    requires
        first@.to_multiset() == second@.to_multiset(),
        all_report_first_crossing(first@, r, t_min),
    ensures
        hit_key(first.spec_hit(r, t_min, t_max)) == hit_key(second.spec_hit(r, t_min, t_max)),
{
    lemma_same_members_report(first@, second@, r, t_min);
    let i = lemma_scan_witness(first@, r, t_min, t_max);
    let j = lemma_scan_witness(second@, r, t_min, t_max);
    // The member that either scene reports is a member of the other, which
    // therefore hits no farther away.
    if first.spec_hit(r, t_min, t_max) is Some {
        let k = lemma_shared_member(second@, first@, i);
        assert(second@[k].spec_hit(r, t_min, t_max) is Some);
    }
    if second.spec_hit(r, t_min, t_max) is Some {
        let l = lemma_shared_member(first@, second@, j);
        assert(first@[l].spec_hit(r, t_min, t_max) is Some);
    }
}

/// Insertion order, without ties: two scenes with the same members, each
/// reporting its first crossing and no two of them hitting at the same key,
/// report the same record.
pub proof fn lemma_hit_order_independent<H: Hittable>(
    first: &HittableList<H>,
    second: &HittableList<H>,
    r: &H::Ray,
    t_min: i64,
    t_max: i64,
)
    requires
        first@.to_multiset() == second@.to_multiset(),
        all_report_first_crossing(first@, r, t_min),
        hits_at_distinct_keys(first@, r, t_min, t_max),
    ensures
        first.spec_hit(r, t_min, t_max) == second.spec_hit(r, t_min, t_max),
{
    lemma_hit_key_order_independent(first, second, r, t_min, t_max);
    lemma_same_members_report(first@, second@, r, t_min);
    let i = lemma_scan_witness(first@, r, t_min, t_max);
    let j = lemma_scan_witness(second@, r, t_min, t_max);
    if second.spec_hit(r, t_min, t_max) is Some {
        // The member that the second scene reports hits at the key of the
        // member that the first reports, so it is that member.
        let l = lemma_shared_member(first@, second@, j);
        assert(hit_key(first@[l].spec_hit(r, t_min, t_max)) == hit_key(
            first@[i].spec_hit(r, t_min, t_max),
        ));
        assert(l == i);
    }
}

/// Nesting: a scene whose members report their first crossings reports its
/// own first crossing, so a scene can be a member of another.
pub proof fn lemma_list_reports_first_crossing<H: Hittable>(
    list: HittableList<H>,
    r: &H::Ray,
    t_min: i64,
)
    requires
        all_report_first_crossing(list@, r, t_min),
    ensures
        reports_first_crossing(list, r, t_min),
{
    assert forall|b: i64| (#[trigger] list.spec_hit(r, t_min, b)) is Some implies t_min
        < list.spec_hit(r, t_min, b)->Some_0.t by {
        lemma_scan_above(list@, r, t_min, b);
    }
    assert forall|a: i64, b: i64|
        #![trigger list.spec_hit(r, t_min, a), list.spec_hit(r, t_min, b)]
        a <= b implies list.spec_hit(r, t_min, a) == below(list.spec_hit(r, t_min, b), a) by {
        lemma_scan_lowered(list@, r, t_min, a, b);
    }
}

} // verus!
