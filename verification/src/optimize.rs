//! Axis-aligned bounding boxes, the slab test that prunes ray traversal,
//! and the bounding-volume hierarchy built over scene objects.

use vstd::prelude::*;

use crate::fx::sabs;
use crate::fx::Fx;
use crate::fx::COORD_MAX;
use crate::ray::Ray;
use crate::vec3::b3;
use vstd::multiset::Multiset;
use crate::vec3::Vec3;

verus! {

/// The box spanned by two corners, the componentwise smallest and largest.
#[derive(Clone, Copy, Debug, PartialEq, Eq, Structural)]
pub struct AxisAlignedBoundingBox {
    pub min: Vec3,
    pub max: Vec3,
}

/// The smaller of two scalars, for box corners.
pub open spec fn min_fx(a: Fx, b: Fx) -> Fx {
    if a <= b {
        a
    } else {
        b
    }
}

/// The larger of two scalars, for box corners.
pub open spec fn max_fx(a: Fx, b: Fx) -> Fx {
    if a >= b {
        a
    } else {
        b
    }
}

/// The smallest box containing both: componentwise minimum and maximum.
pub open spec fn merged_spec(
    a: AxisAlignedBoundingBox,
    b: AxisAlignedBoundingBox,
) -> AxisAlignedBoundingBox {
    AxisAlignedBoundingBox {
        min: Vec3 {
            x: min_fx(a.min.x, b.min.x),
            y: min_fx(a.min.y, b.min.y),
            z: min_fx(a.min.z, b.min.z),
        },
        max: Vec3 {
            x: max_fx(a.max.x, b.max.x),
            y: max_fx(a.max.y, b.max.y),
            z: max_fx(a.max.z, b.max.z),
        },
    }
}

/// One box fits inside another.
pub open spec fn box_inside(
    inner: AxisAlignedBoundingBox,
    outer: AxisAlignedBoundingBox,
) -> bool {
    outer.min.x <= inner.min.x && outer.min.y <= inner.min.y && outer.min.z <= inner.min.z
        && inner.max.x <= outer.max.x && inner.max.y <= outer.max.y && inner.max.z <= outer.max.z
}

/// All six corner coordinates are world-sized.
pub open spec fn box_bounded(b: AxisAlignedBoundingBox) -> bool {
    b3(b.min, COORD_MAX as int) && b3(b.max, COORD_MAX as int)
}

impl AxisAlignedBoundingBox {
    pub fn new(min: Vec3, max: Vec3) -> (r: Self)
        ensures
            r.min == min,
            r.max == max,
    {
        Self { min, max }
    }

    pub fn min(&self) -> (r: &Vec3)
        ensures
            *r == self.min,
    {
        &self.min
    }

    pub fn max(&self) -> (r: &Vec3)
        ensures
            *r == self.max,
    {
        &self.max
    }

    /// The smallest box containing this one and another.
    pub fn merged(&self, other: &Self) -> (r: Self)
        ensures
            r == merged_spec(*self, *other),
    {
        let min = Vec3::new(
            crate::fx::fx_min(self.min.x, other.min.x),
            crate::fx::fx_min(self.min.y, other.min.y),
            crate::fx::fx_min(self.min.z, other.min.z),
        );
        let max = Vec3::new(
            crate::fx::fx_max(self.max.x, other.max.x),
            crate::fx::fx_max(self.max.y, other.max.y),
            crate::fx::fx_max(self.max.z, other.max.z),
        );
        AxisAlignedBoundingBox::new(min, max)
    }
}

/// Merging is commutative.
pub proof fn lemma_merge_commutes(a: AxisAlignedBoundingBox, b: AxisAlignedBoundingBox)
    ensures
        merged_spec(a, b) == merged_spec(b, a),
{
}

/// Merging is associative.
pub proof fn lemma_merge_associates(
    a: AxisAlignedBoundingBox,
    b: AxisAlignedBoundingBox,
    c: AxisAlignedBoundingBox,
)
    ensures
        merged_spec(merged_spec(a, b), c) == merged_spec(a, merged_spec(b, c)),
{
}

/// Merging a box with itself gives the box back.
pub proof fn lemma_merge_idempotent(a: AxisAlignedBoundingBox)
    ensures
        merged_spec(a, a) == a,
{
}

/// Both inputs fit inside their merge.
pub proof fn lemma_merge_contains(a: AxisAlignedBoundingBox, b: AxisAlignedBoundingBox)
    ensures
        box_inside(a, merged_spec(a, b)),
        box_inside(b, merged_spec(a, b)),
{
}

/// Containment is transitive.
pub proof fn lemma_inside_trans(
    a: AxisAlignedBoundingBox,
    b: AxisAlignedBoundingBox,
    c: AxisAlignedBoundingBox,
)
    requires
        box_inside(a, b),
        box_inside(b, c),
    ensures
        box_inside(a, c),
{
}

/// The parameter `tn / td` keeps the ray inside the slab of one axis: at
/// that parameter the moving coordinate lies between the two walls, or, for
/// a ray parallel to the axis, its fixed coordinate does.
pub open spec fn axis_inside(o: int, d: int, mn: int, mx: int, tn: int, td: int) -> bool {
    if d == 0 {
        mn <= o <= mx
    } else {
        (mn - o) * td <= d * tn && d * tn <= (mx - o) * td
    }
}

/// The witness form of the slab test: the parameter is a nonnegative
/// rational staying inside all three axis slabs at once.
pub open spec fn slab_witness(
    b: AxisAlignedBoundingBox,
    r: Ray,
    tn: int,
    td: int,
) -> bool {
    &&& td > 0
    &&& tn >= 0
    &&& axis_inside(r.origin.x as int, r.direction.x as int, b.min.x as int, b.max.x as int, tn, td)
    &&& axis_inside(r.origin.y as int, r.direction.y as int, b.min.y as int, b.max.y as int, tn, td)
    &&& axis_inside(r.origin.z as int, r.direction.z as int, b.min.z as int, b.max.z as int, tn, td)
}

/// A ray meets a box when some nonnegative parameter keeps it inside every
/// axis slab.
pub open spec fn slab_pass(b: AxisAlignedBoundingBox, r: Ray) -> bool {
    exists|tn: int, td: int| #[trigger] slab_witness(b, r, tn, td)
}

/// A ray passing the slab test of an inner box passes it for any box the
/// inner one fits inside: growing the walls keeps every witness.
pub proof fn lemma_slab_monotone(
    inner: AxisAlignedBoundingBox,
    outer: AxisAlignedBoundingBox,
    r: Ray,
)
    requires
        box_inside(inner, outer),
        slab_pass(inner, r),
    ensures
        slab_pass(outer, r),
{
    let (tn, td) = choose|tn: int, td: int| #[trigger] slab_witness(inner, r, tn, td);
    lemma_axis_widen(
        r.origin.x as int,
        r.direction.x as int,
        inner.min.x as int,
        inner.max.x as int,
        outer.min.x as int,
        outer.max.x as int,
        tn,
        td,
    );
    lemma_axis_widen(
        r.origin.y as int,
        r.direction.y as int,
        inner.min.y as int,
        inner.max.y as int,
        outer.min.y as int,
        outer.max.y as int,
        tn,
        td,
    );
    lemma_axis_widen(
        r.origin.z as int,
        r.direction.z as int,
        inner.min.z as int,
        inner.max.z as int,
        outer.min.z as int,
        outer.max.z as int,
        tn,
        td,
    );
    assert(slab_witness(outer, r, tn, td));
}

proof fn lemma_axis_widen(o: int, d: int, mn: int, mx: int, wmn: int, wmx: int, tn: int, td: int)
    by (nonlinear_arith)
    requires
        wmn <= mn,
        mx <= wmx,
        td > 0,
        axis_inside(o, d, mn, mx, tn, td),
    ensures
        axis_inside(o, d, wmn, wmx, tn, td),
{
}

/// A fraction with a positive denominator, for exact comparisons of ray
/// parameters.
#[derive(Clone, Copy)]
struct Frac {
    n: i64,
    d: i64,
}

/// Fraction order by cross multiplication.
spec fn frac_le(a: Frac, b: Frac) -> bool {
    a.n * b.d <= b.n * a.d
}

spec fn frac_ok(f: Frac) -> bool {
    0 < f.d <= COORD_MAX && -0x1_0000_0000 <= f.n <= 0x1_0000_0000
}

/// The parameter `tn / td` lies above `lo` and, when there is one, below
/// `hi`.
spec fn in_window(lo: Frac, hi: Option<Frac>, tn: int, td: int) -> bool {
    lo.n * td <= tn * lo.d && match hi {
        Some(h) => tn * h.d <= h.n * td,
        None => true,
    }
}

fn frac_le_exec(a: &Frac, b: &Frac) -> (r: bool)
    requires
        frac_ok(*a),
        frac_ok(*b),
    ensures
        r == frac_le(*a, *b),
{
    proof {
        lemma_cross_fits(a.n as int, a.d as int, b.n as int, b.d as int);
    }
    (a.n as i128) * (b.d as i128) <= (b.n as i128) * (a.d as i128)
}

proof fn lemma_cross_fits(an: int, ad: int, bn: int, bd: int)
    by (nonlinear_arith)
    requires
        0 < ad <= COORD_MAX as int,
        0 < bd <= COORD_MAX as int,
        -0x1_0000_0000 <= an <= 0x1_0000_0000,
        -0x1_0000_0000 <= bn <= 0x1_0000_0000,
    ensures
        sabs(an * bd) <= 0x1_0000_0000 * 0x4000_0000,
        sabs(bn * ad) <= 0x1_0000_0000 * 0x4000_0000,
{
}

/// Tighten the window by one axis slab. The result is the new window, or
/// nothing when the axis can never be satisfied; a parameter is in the new
/// window exactly when it is in the old one and inside the axis slab.
fn axis_update(lo: Frac, hi: Option<Frac>, o: i64, d: i64, mn: i64, mx: i64) -> (r: Option<
    (Frac, Option<Frac>),
>)
    requires
        frac_ok(lo),
        hi matches Some(h) ==> frac_ok(h),
        sabs(o as int) <= COORD_MAX as int,
        sabs(d as int) <= COORD_MAX as int,
        sabs(mn as int) <= COORD_MAX as int,
        sabs(mx as int) <= COORD_MAX as int,
    ensures
        r matches Some(w) ==> frac_ok(w.0) && (w.1 matches Some(h) ==> frac_ok(h)),
        r is None ==> forall|tn: int, td: int|
            td > 0 ==> !#[trigger] axis_inside(o as int, d as int, mn as int, mx as int, tn, td),
        r matches Some(w) ==> forall|tn: int, td: int|
            td > 0 ==> (#[trigger] in_window(w.0, w.1, tn, td) <==> (in_window(lo, hi, tn, td)
                && axis_inside(o as int, d as int, mn as int, mx as int, tn, td))),
        r matches Some(w) ==> (frac_le(lo, w.0) && lo.n >= 0 ==> w.0.n >= 0),
{
    if d == 0 {
        if mn <= o && o <= mx {
            return Some((lo, hi));
        } else {
            return None;
        }
    }
    let t0 = if d > 0 {
        Frac { n: mn - o, d }
    } else {
        Frac { n: o - mx, d: -d }
    };
    let t1 = if d > 0 {
        Frac { n: mx - o, d }
    } else {
        Frac { n: o - mn, d: -d }
    };
    proof {
        lemma_axis_window(o as int, d as int, mn as int, mx as int, t0, t1);
    }
    let nlo = if frac_le_exec(&lo, &t0) {
        t0
    } else {
        lo
    };
    let nhi = match hi {
        Some(h) => if frac_le_exec(&t1, &h) {
            Some(t1)
        } else {
            Some(h)
        },
        None => Some(t1),
    };
    proof {
        let w0 = nlo;
        assert forall|tn: int, td: int| td > 0 implies (#[trigger] in_window(nlo, nhi, tn, td)
            <==> (in_window(lo, hi, tn, td) && axis_inside(
            o as int,
            d as int,
            mn as int,
            mx as int,
            tn,
            td,
        ))) by {
            lemma_max_window(lo, t0, nlo, tn, td);
            match hi {
                Some(h) => {
                    lemma_min_window(h, t1, nhi.unwrap(), tn, td);
                },
                None => {},
            }
        }
        if frac_le(lo, nlo) && lo.n >= 0 {
            assert(nlo.n >= 0) by (nonlinear_arith)
                requires
                    frac_le(lo, nlo),
                    lo.n >= 0,
                    lo.d > 0,
                    nlo.d > 0,
            ;
        }
    }
    Some((nlo, nhi))
}

/// A parameter is inside an axis slab exactly when it lies between the two
/// wall fractions.
proof fn lemma_axis_window(o: int, d: int, mn: int, mx: int, t0: Frac, t1: Frac)
    by (nonlinear_arith)
    requires
        d != 0,
        d > 0 ==> t0 == (Frac { n: (mn - o) as i64, d: d as i64 }) && t1 == (Frac {
            n: (mx - o) as i64,
            d: d as i64,
        }),
        d < 0 ==> t0 == (Frac { n: (o - mx) as i64, d: (-d) as i64 }) && t1 == (Frac {
            n: (o - mn) as i64,
            d: (-d) as i64,
        }),
        -0x4000_0000 <= d <= 0x4000_0000,
        -0x4000_0000 <= o <= 0x4000_0000,
        -0x4000_0000 <= mn <= 0x4000_0000,
        -0x4000_0000 <= mx <= 0x4000_0000,
    ensures
        t0.d > 0,
        t1.d > 0,
        frac_ok(t0),
        frac_ok(t1),
        forall|tn: int, td: int|
            td > 0 ==> (#[trigger] axis_inside(o, d, mn, mx, tn, td) <==> (t0.n * td <= tn * t0.d
                && tn * t1.d <= t1.n * td)),
{
}

/// The maximum of two lower bounds cuts the window to the intersection.
proof fn lemma_max_window(lo: Frac, t0: Frac, nlo: Frac, tn: int, td: int)
    by (nonlinear_arith)
    requires
        lo.d > 0,
        t0.d > 0,
        td > 0,
        nlo == (if frac_le(lo, t0) {
            t0
        } else {
            lo
        }),
    ensures
        (nlo.n * td <= tn * nlo.d) <==> (lo.n * td <= tn * lo.d && t0.n * td <= tn * t0.d),
{
}

/// The minimum of two upper bounds cuts the window to the intersection.
proof fn lemma_min_window(h: Frac, t1: Frac, nhi: Frac, tn: int, td: int)
    by (nonlinear_arith)
    requires
        h.d > 0,
        t1.d > 0,
        td > 0,
        nhi == (if frac_le(t1, h) {
            t1
        } else {
            h
        }),
    ensures
        (tn * nhi.d <= nhi.n * td) <==> (tn * h.d <= h.n * td && tn * t1.d <= t1.n * td),
{
}

/// The executable slab test: intersect the three axis windows, starting
/// from all nonnegative parameters, and test whether the window is empty.
pub fn slab_hit(b: &AxisAlignedBoundingBox, ray: &Ray) -> (r: bool)
    requires
        box_bounded(*b),
        crate::ray::ray_bounded(*ray),
    ensures
        r == slab_pass(*b, *ray),
{
    let lo = Frac { n: 0, d: 1 };
    let hi: Option<Frac> = None;
    let w1 = axis_update(lo, hi, ray.origin.x, ray.direction.x, b.min.x, b.max.x);
    let w1 = match w1 {
        Some(w) => w,
        None => {
            proof {
                lemma_no_witness(*b, *ray);
            }
            return false;
        },
    };
    let w2 = axis_update(w1.0, w1.1, ray.origin.y, ray.direction.y, b.min.y, b.max.y);
    let w2 = match w2 {
        Some(w) => w,
        None => {
            proof {
                lemma_no_witness(*b, *ray);
            }
            return false;
        },
    };
    let w3 = axis_update(w2.0, w2.1, ray.origin.z, ray.direction.z, b.min.z, b.max.z);
    let w3 = match w3 {
        Some(w) => w,
        None => {
            proof {
                lemma_no_witness(*b, *ray);
            }
            return false;
        },
    };
    let (flo, fhi) = w3;
    let pass = match &fhi {
        Some(h) => frac_le_exec(&flo, h),
        None => true,
    };
    proof {
        if pass {
            assert(in_window(flo, fhi, flo.n as int, flo.d as int)) by {
                match fhi {
                    Some(h) => {
                        assert(flo.n * flo.d <= flo.n * flo.d);
                        assert(flo.n * h.d <= h.n * flo.d);
                    },
                    None => {
                        assert(flo.n * flo.d <= flo.n * flo.d);
                    },
                }
            }
            assert(slab_witness(*b, *ray, flo.n as int, flo.d as int));
        } else {
            let h = fhi.unwrap();
            if slab_pass(*b, *ray) {
                let (tn, td) = choose|tn: int, td: int| #[trigger] slab_witness(*b, *ray, tn, td);
                assert(in_window(flo, fhi, tn, td));
                assert(frac_le(flo, h)) by (nonlinear_arith)
                    requires
                        flo.n * td <= tn * flo.d,
                        tn * h.d <= h.n * td,
                        td > 0,
                        flo.d > 0,
                        h.d > 0,
                ;
                assert(false);
            }
        }
    }
    pass
}

/// When one axis can never be satisfied there is no witness at all.
proof fn lemma_no_witness(b: AxisAlignedBoundingBox, ray: Ray)
    ensures
        (forall|tn: int, td: int|
            td > 0 ==> !#[trigger] axis_inside(
                ray.origin.x as int,
                ray.direction.x as int,
                b.min.x as int,
                b.max.x as int,
                tn,
                td,
            )) ==> !slab_pass(b, ray),
        (forall|tn: int, td: int|
            td > 0 ==> !#[trigger] axis_inside(
                ray.origin.y as int,
                ray.direction.y as int,
                b.min.y as int,
                b.max.y as int,
                tn,
                td,
            )) ==> !slab_pass(b, ray),
        (forall|tn: int, td: int|
            td > 0 ==> !#[trigger] axis_inside(
                ray.origin.z as int,
                ray.direction.z as int,
                b.min.z as int,
                b.max.z as int,
                tn,
                td,
            )) ==> !slab_pass(b, ray),
{
    if slab_pass(b, ray) {
        let (tn, td) = choose|tn: int, td: int| #[trigger] slab_witness(b, ray, tn, td);
        assert(axis_inside(
            ray.origin.x as int,
            ray.direction.x as int,
            b.min.x as int,
            b.max.x as int,
            tn,
            td,
        ));
        assert(axis_inside(
            ray.origin.y as int,
            ray.direction.y as int,
            b.min.y as int,
            b.max.y as int,
            tn,
            td,
        ));
        assert(axis_inside(
            ray.origin.z as int,
            ray.direction.z as int,
            b.min.z as int,
            b.max.z as int,
            tn,
            td,
        ));
    }
}


/// A node of the bounding-volume hierarchy: a box and up to two children,
/// each a leaf object or another node.
#[derive(Debug)]
pub struct BoundingVolumeHierarchyNode {
    pub volume: AxisAlignedBoundingBox,
    pub left: Option<std::sync::Arc<crate::scene::Object>>,
    pub right: Option<std::sync::Arc<crate::scene::Object>>,
}

impl BoundingVolumeHierarchyNode {
    pub fn volume(&self) -> (r: &AxisAlignedBoundingBox)
        ensures
            *r == self.volume,
    {
        &self.volume
    }

    pub fn left(&self) -> (r: &Option<std::sync::Arc<crate::scene::Object>>)
        ensures
            *r == self.left,
    {
        &self.left
    }

    pub fn right(&self) -> (r: &Option<std::sync::Arc<crate::scene::Object>>)
        ensures
            *r == self.right,
    {
        &self.right
    }
}


impl BoundingVolumeHierarchyNode {
    /// Build a hierarchy over the objects, choosing a split axis from
    /// fresh entropy, as a fixed split order can be systematically bad for
    /// some layouts. The tree shape may differ between two builds; what the
    /// traversal returns does not depend on it.
    pub fn new(objects: Vec<crate::scene::Object>) -> (r: Option<BoundingVolumeHierarchyNode>)
        requires
            forall|i: int|
                0 <= i < objects@.len() ==> crate::scene::object_wf(#[trigger] objects@[i]),
        ensures
            r matches Some(n) ==> crate::scene::object_wf(crate::scene::Object::Node(n))
                && crate::scene::leaves(crate::scene::Object::Node(n)) == crate::scene::seq_leaves(
                objects@,
            ),
            objects@.len() == 0 ==> r is None,
            (objects@.len() > 0 && forall|i: int|
                0 <= i < objects@.len() ==> crate::scene::object_bound_spec(
                    #[trigger] objects@[i],
                ) is Some) ==> r is Some,
    {
        let mut generator = crate::rng::Lcg::new(crate::util::fresh_seed());
        Self::new_seeded(objects, &mut generator)
    }

    /// Build a hierarchy over the objects, drawing split axes from the
    /// given generator: one object becomes a leaf child, two are ordered on
    /// the axis, more are sorted on it and split in half. Construction
    /// fails on no objects, or on any object with no bound.
    #[verifier::rlimit(100)]
    pub fn new_seeded(objects: Vec<crate::scene::Object>, generator: &mut crate::rng::Lcg) -> (r:
        Option<BoundingVolumeHierarchyNode>)
        requires
            forall|i: int|
                0 <= i < objects@.len() ==> crate::scene::object_wf(#[trigger] objects@[i]),
        ensures
            r matches Some(n) ==> crate::scene::object_wf(crate::scene::Object::Node(n))
                && crate::scene::leaves(crate::scene::Object::Node(n)) == crate::scene::seq_leaves(
                objects@,
            ),
            objects@.len() == 0 ==> r is None,
            (objects@.len() > 0 && forall|i: int|
                0 <= i < objects@.len() ==> crate::scene::object_bound_spec(
                    #[trigger] objects@[i],
                ) is Some) ==> r is Some,
        decreases objects@.len(), 1int,
    {
        broadcast use vstd::seq_lib::group_to_multiset_ensures;
        broadcast use vstd::multiset::group_multiset_axioms;

        if objects.len() == 0 {
            return None;
        }
        let axis: usize = (generator.next_u64() % 3) as usize;
        if objects.len() == 1 {
            return Self::one_node(objects);
        }
        if objects.len() == 2 {
            return Self::two_node(objects, axis);
        }
        Self::split_node(objects, axis, generator)
    }

    /// The one-object tree.
    #[verifier::rlimit(100)]
    fn one_node(objects: Vec<crate::scene::Object>) -> (r: Option<BoundingVolumeHierarchyNode>)
        requires
            objects@.len() == 1,
            forall|i: int|
                0 <= i < objects@.len() ==> crate::scene::object_wf(#[trigger] objects@[i]),
        ensures
            r matches Some(n) ==> crate::scene::object_wf(crate::scene::Object::Node(n))
                && crate::scene::leaves(crate::scene::Object::Node(n)) == crate::scene::seq_leaves(
                objects@,
            ),
            (forall|i: int|
                0 <= i < objects@.len() ==> crate::scene::object_bound_spec(
                    #[trigger] objects@[i],
                ) is Some) ==> r is Some,
    {
        let mut objects = objects;
        let ghost orig = objects@;
        let only = objects.pop().unwrap();
        proof {
            assert(orig =~= singleton_seq(only));
        }
        Self::leaf_node(only)
    }

    /// The two-object tree, ordered on the axis.
    #[verifier::rlimit(100)]
    fn two_node(objects: Vec<crate::scene::Object>, axis: usize) -> (r: Option<
        BoundingVolumeHierarchyNode,
    >)
        requires
            objects@.len() == 2,
            forall|i: int|
                0 <= i < objects@.len() ==> crate::scene::object_wf(#[trigger] objects@[i]),
        ensures
            r matches Some(n) ==> crate::scene::object_wf(crate::scene::Object::Node(n))
                && crate::scene::leaves(crate::scene::Object::Node(n)) == crate::scene::seq_leaves(
                objects@,
            ),
            (forall|i: int|
                0 <= i < objects@.len() ==> crate::scene::object_bound_spec(
                    #[trigger] objects@[i],
                ) is Some) ==> r is Some,
    {
        broadcast use vstd::multiset::group_multiset_axioms;

        let mut objects = objects;
        let ghost orig = objects@;
        let b = objects.pop().unwrap();
        let a = objects.pop().unwrap();
        proof {
            assert(orig.drop_last() =~= seq![a]);
            assert(orig.last() == b);
            assert(seq![a].drop_last() =~= Seq::<crate::scene::Object>::empty());
            assert(crate::scene::seq_leaves(orig) == crate::scene::seq_leaves(
                seq![a],
            ).add(crate::scene::leaves(b)));
            assert(crate::scene::seq_leaves(seq![a]) == crate::scene::seq_leaves(
                Seq::<crate::scene::Object>::empty(),
            ).add(crate::scene::leaves(a)));
            assert(crate::scene::seq_leaves(orig) =~= crate::scene::leaves(a).add(
                crate::scene::leaves(b),
            ));
            assert(crate::scene::leaves(a).add(crate::scene::leaves(b)) =~= crate::scene::leaves(
                b,
            ).add(crate::scene::leaves(a)));
        }
        if axis_key(&a, axis) <= axis_key(&b, axis) {
            Self::pair_node(a, b)
        } else {
            Self::pair_node(b, a)
        }
    }

    /// Sort on the axis, split in half, and build both sides.
    #[verifier::rlimit(100)]
    fn split_node(
        objects: Vec<crate::scene::Object>,
        axis: usize,
        generator: &mut crate::rng::Lcg,
    ) -> (r: Option<BoundingVolumeHierarchyNode>)
        requires
            objects@.len() >= 3,
            forall|i: int|
                0 <= i < objects@.len() ==> crate::scene::object_wf(#[trigger] objects@[i]),
        ensures
            r matches Some(n) ==> crate::scene::object_wf(crate::scene::Object::Node(n))
                && crate::scene::leaves(crate::scene::Object::Node(n)) == crate::scene::seq_leaves(
                objects@,
            ),
            (forall|i: int|
                0 <= i < objects@.len() ==> crate::scene::object_bound_spec(
                    #[trigger] objects@[i],
                ) is Some) ==> r is Some,
        decreases objects@.len(), 0int,
    {
        broadcast use vstd::seq_lib::group_to_multiset_ensures;
        broadcast use vstd::multiset::group_multiset_axioms;

        let mut sorted = sort_by_axis(objects, axis);
        proof {
            assert forall|i: int| 0 <= i < sorted@.len() implies crate::scene::object_wf(
                #[trigger] sorted@[i],
            ) && ((forall|k: int|
                0 <= k < objects@.len() ==> crate::scene::object_bound_spec(
                    #[trigger] objects@[k],
                ) is Some) ==> crate::scene::object_bound_spec(sorted@[i]) is Some) by {
                assert(sorted@.to_multiset().count(sorted@[i]) > 0);
                assert(objects@.to_multiset().count(sorted@[i]) > 0);
                assert(objects@.contains(sorted@[i]));
                let k = choose|k: int| 0 <= k < objects@.len() && objects@[k] == sorted@[i];
                assert(crate::scene::object_wf(objects@[k]));
            }
        }
        let middle = sorted.len() / 2;
        let ghost whole = sorted@;
        let right_vec = sorted.split_off(middle);
        proof {
            assert(sorted@ + right_vec@ =~= whole);
            crate::scene::lemma_seq_leaves_concat(sorted@, right_vec@);
        }
        let left = match Self::new_seeded(sorted, generator) {
            None => {
                return None;
            },
            Some(n) => n,
        };
        let right = match Self::new_seeded(right_vec, generator) {
            None => {
                return None;
            },
            Some(n) => n,
        };
        let volume = left.volume().merged(right.volume());
        Some(
            BoundingVolumeHierarchyNode {
                volume,
                left: Some(std::sync::Arc::new(crate::scene::Object::Node(left))),
                right: Some(std::sync::Arc::new(crate::scene::Object::Node(right))),
            },
        )
    }

    /// A node holding a single leaf.
    fn leaf_node(only: crate::scene::Object) -> (r: Option<BoundingVolumeHierarchyNode>)
        requires
            crate::scene::object_wf(only),
        ensures
            r matches Some(n) ==> crate::scene::object_wf(crate::scene::Object::Node(n))
                && crate::scene::leaves(crate::scene::Object::Node(n)) == crate::scene::seq_leaves(
                singleton_seq(only),
            ),
            crate::scene::object_bound_spec(only) is Some ==> r is Some,
    {
        broadcast use vstd::multiset::group_multiset_axioms;

        let b = match crate::scene::object_bound(&only) {
            None => {
                return None;
            },
            Some(b) => b,
        };
        proof {
            crate::scene::lemma_bound_bounded(only);
            crate::scene::lemma_seq_leaves_push(seq![], only);
            assert(Seq::<crate::scene::Object>::empty().push(only) =~= singleton_seq(only));
        }
        Some(
            BoundingVolumeHierarchyNode {
                volume: b,
                left: Some(std::sync::Arc::new(only)),
                right: None,
            },
        )
    }

    /// A node holding two ordered leaves.
    fn pair_node(first: crate::scene::Object, second: crate::scene::Object) -> (r: Option<
        BoundingVolumeHierarchyNode,
    >)
        requires
            crate::scene::object_wf(first),
            crate::scene::object_wf(second),
        ensures
            r matches Some(n) ==> crate::scene::object_wf(crate::scene::Object::Node(n))
                && crate::scene::leaves(crate::scene::Object::Node(n)) == crate::scene::leaves(
                first,
            ).add(crate::scene::leaves(second)),
            (crate::scene::object_bound_spec(first) is Some && crate::scene::object_bound_spec(
                second,
            ) is Some) ==> r is Some,
    {
        let lb = match crate::scene::object_bound(&first) {
            None => {
                return None;
            },
            Some(b) => b,
        };
        let rb = match crate::scene::object_bound(&second) {
            None => {
                return None;
            },
            Some(b) => b,
        };
        proof {
            crate::scene::lemma_bound_bounded(first);
            crate::scene::lemma_bound_bounded(second);
        }
        Some(
            BoundingVolumeHierarchyNode {
                volume: lb.merged(&rb),
                left: Some(std::sync::Arc::new(first)),
                right: Some(std::sync::Arc::new(second)),
            },
        )
    }
}

/// The sequence holding one object.
pub open spec fn singleton_seq(o: crate::scene::Object) -> Seq<crate::scene::Object> {
    seq![o]
}

/// The sort key of an object on an axis: the low corner of its bound.
fn axis_key(o: &crate::scene::Object, axis: usize) -> (r: i64)
    requires
        crate::scene::object_wf(*o),
{
    match crate::scene::object_bound(o) {
        None => 0,
        Some(b) => {
            if axis == 0 {
                b.min.x
            } else if axis == 1 {
                b.min.y
            } else {
                b.min.z
            }
        },
    }
}

/// Order the objects by their bound's low corner on the axis, by selection;
/// the result holds exactly the same objects.
fn sort_by_axis(objects: Vec<crate::scene::Object>, axis: usize) -> (r: Vec<crate::scene::Object>)
    requires
        forall|i: int| 0 <= i < objects@.len() ==> crate::scene::object_wf(#[trigger] objects@[i]),
    ensures
        r@.to_multiset() == objects@.to_multiset(),
        crate::scene::seq_leaves(r@) == crate::scene::seq_leaves(objects@),
        r@.len() == objects@.len(),
{
    broadcast use vstd::seq_lib::group_to_multiset_ensures;
    broadcast use vstd::multiset::group_multiset_axioms;

    let mut rest = objects;
    let mut out: Vec<crate::scene::Object> = Vec::new();
    proof {
        assert(out@.to_multiset().add(rest@.to_multiset()) =~= rest@.to_multiset());
        assert(crate::scene::seq_leaves(out@) =~= Multiset::empty());
        assert(crate::scene::seq_leaves(out@).add(crate::scene::seq_leaves(rest@))
            =~= crate::scene::seq_leaves(rest@));
    }
    let ghost orig = rest@;
    while rest.len() > 0
        invariant
            out@.to_multiset().add(rest@.to_multiset()) == orig.to_multiset(),
            crate::scene::seq_leaves(out@).add(crate::scene::seq_leaves(rest@))
                == crate::scene::seq_leaves(orig),
            out@.len() + rest@.len() == orig.len(),
            forall|i: int| 0 <= i < rest@.len() ==> crate::scene::object_wf(#[trigger] rest@[i]),
        decreases rest@.len(),
    {
        let mut best: usize = 0;
        let mut bestkey = axis_key(&rest[0], axis);
        let mut j: usize = 1;
        while j < rest.len()
            invariant
                best < rest@.len(),
                j <= rest@.len(),
                rest@.len() > 0,
                forall|i: int|
                    0 <= i < rest@.len() ==> crate::scene::object_wf(#[trigger] rest@[i]),
            decreases rest@.len() - j,
        {
            let k = axis_key(&rest[j], axis);
            if k < bestkey {
                best = j;
                bestkey = k;
            }
            j = j + 1;
        }
        let ghost before = rest@;
        let x = rest.remove(best);
        proof {
            crate::scene::lemma_seq_leaves_remove(before, best as int);
            crate::scene::lemma_seq_leaves_push(out@, x);
            broadcast use vstd::seq_lib::group_to_multiset_ensures;

            assert(out@.push(x).to_multiset() =~= out@.to_multiset().insert(x));
            assert(out@.to_multiset().insert(x).add(rest@.to_multiset()) =~= out@.to_multiset().add(
                before.to_multiset(),
            ));
            assert(crate::scene::seq_leaves(out@).add(crate::scene::leaves(x)).add(
                crate::scene::seq_leaves(rest@),
            ) =~= crate::scene::seq_leaves(out@).add(crate::scene::seq_leaves(before)));
        }
        out.push(x);
    }
    proof {
        assert(rest@.to_multiset() =~= Multiset::empty());
        assert(crate::scene::seq_leaves(rest@) =~= Multiset::empty());
        assert(out@.to_multiset() =~= out@.to_multiset().add(rest@.to_multiset()));
        assert(crate::scene::seq_leaves(out@) =~= crate::scene::seq_leaves(out@).add(
            crate::scene::seq_leaves(rest@),
        ));
    }
    out
}


/// The things a bounding box can wrap; the hierarchy is built over them.
pub trait Bound {
    fn bound(&self) -> Option<AxisAlignedBoundingBox>;
}

impl Bound for AxisAlignedBoundingBox {
    /// A box is its own bound.
    fn bound(&self) -> Option<AxisAlignedBoundingBox> {
        Some(*self)
    }
}

impl Bound for crate::geometry::Sphere {
    /// A sphere is bounded by the cube of its radius.
    fn bound(&self) -> Option<AxisAlignedBoundingBox> {
        if self.radius < 1 || self.radius > COORD_MAX {
            None
        } else {
            Some(
                AxisAlignedBoundingBox::new(
                    Vec3::new(-self.radius, -self.radius, -self.radius),
                    Vec3::new(self.radius, self.radius, self.radius),
                ),
            )
        }
    }
}

impl Bound for crate::geometry::Rectangle {
    /// A rectangle is bounded by its half extents and a thin slab.
    fn bound(&self) -> Option<AxisAlignedBoundingBox> {
        if self.width < 2 || self.width > COORD_MAX || self.height < 2 || self.height
            > COORD_MAX {
            None
        } else {
            Some(
                AxisAlignedBoundingBox::new(
                    Vec3::new(-(self.width / 2), -(self.height / 2), -1),
                    Vec3::new(self.width / 2, self.height / 2, 1),
                ),
            )
        }
    }
}

impl Bound for BoundingVolumeHierarchyNode {
    /// A node is bounded by its own volume.
    fn bound(&self) -> Option<AxisAlignedBoundingBox> {
        Some(self.volume)
    }
}

} // verus!
