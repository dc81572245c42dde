//! The bounding-volume hierarchy: a binary tree over the bounded
//! primitives, built by median split along a randomly chosen axis,
//! traversed with a box test that prunes subtrees the ray misses.

use vstd::prelude::*;
use vstd::seq_lib::lemma_multiset_commutative;
use crate::fixed::absi;
use crate::fixed::COORD_MAX;
use crate::primitive::{sphere_hit_spec, sphere_wf, Sphere};
use crate::primitive_traits::{
    bbox_hit_spec, bbox_union_spec, bbox_wf, BBox, BoundedPrimitive, Primitive,
};
use crate::ray::{ray_wf, Hit, Ray};
use crate::vec3::axis_spec;
use crate::rng::rand_axis;

verus! {

broadcast use vstd::seq_lib::group_to_multiset_ensures;

/// A node is either a leaf holding one primitive or a branch holding
/// two subtrees.
pub enum BvhData {
    Branch(Box<BvhNode>, Box<BvhNode>),
    Leaf(Sphere),
}

/// A tree node together with a box containing everything beneath it.
pub struct BvhNode {
    pub data: BvhData,
    pub bounding_box: BBox,
}

/// The primitives stored in the leaves beneath `n`, left to right.
pub open spec fn bvh_prims(n: BvhNode) -> Seq<Sphere>
    decreases n,
{
    match n.data {
        BvhData::Leaf(s) => seq![s],
        BvhData::Branch(l, r) => bvh_prims(*l) + bvh_prims(*r),
    }
}

/// The box invariant: a leaf's box is exactly its primitive's box and
/// a branch's box is exactly the union of its children's boxes,
/// recursively, with every stored primitive well formed.
pub open spec fn bvh_wf(n: BvhNode) -> bool
    decreases n,
{
    match n.data {
        BvhData::Leaf(s) => {
            &&& sphere_wf(s)
            &&& n.bounding_box == s.bbox_spec()
            &&& bbox_wf(n.bounding_box)
        },
        BvhData::Branch(l, r) => {
            &&& bvh_wf(*l)
            &&& bvh_wf(*r)
            &&& n.bounding_box == bbox_union_spec(l.bounding_box, r.bounding_box)
            &&& bbox_wf(n.bounding_box)
        },
    }
}

/// The depth of the tree: zero at a leaf, one more than the deeper
/// child at a branch.
pub open spec fn bvh_height(n: BvhNode) -> int
    decreases n,
{
    match n.data {
        BvhData::Leaf(_) => 0,
        BvhData::Branch(l, r) => 1 + if bvh_height(*l) >= bvh_height(*r) {
            bvh_height(*l)
        } else {
            bvh_height(*r)
        },
    }
}

/// The logarithm of `n` in base two, rounded up.
pub open spec fn ceil_log2(n: int) -> int
    decreases n,
{
    if n <= 1 {
        0
    } else {
        1 + ceil_log2((n + 1) / 2)
    }
}

/// The rounded-up logarithm is nonnegative and monotone.
pub proof fn lemma_ceil_log2_mono(a: int, b: int)
    requires
        1 <= a <= b,
    ensures
        0 <= ceil_log2(a) <= ceil_log2(b),
    decreases b,
{
    if b <= 1 {
    } else if a <= 1 {
        lemma_ceil_log2_mono((b + 1) / 2, (b + 1) / 2);
        assert(1 <= (b + 1) / 2 < b) by (nonlinear_arith)
            requires b >= 2;
    } else {
        assert(1 <= (a + 1) / 2 <= (b + 1) / 2 < b) by (nonlinear_arith)
            requires 2 <= a <= b;
        lemma_ceil_log2_mono((a + 1) / 2, (b + 1) / 2);
    }
}

/// Of two optional hits, the one with the smaller parameter; the
/// right one on a tie.
pub open spec fn combine_hits(a: Option<Hit>, b: Option<Hit>) -> Option<Hit> {
    match (a, b) {
        (Some(x), Some(y)) => if x.t < y.t {
            Some(x)
        } else {
            Some(y)
        },
        (Some(x), None) => Some(x),
        (None, Some(y)) => Some(y),
        (None, None) => None,
    }
}

/// What the traversal returns: nothing when the ray misses the node's
/// box, else the closer of the children's results, or the leaf
/// primitive's own intersection.
pub open spec fn bvh_hit_spec(n: BvhNode, r: Ray, tmin: int, tmax: int) -> Option<Hit>
    decreases n,
{
    if !bbox_hit_spec(n.bounding_box, r, tmin, tmax) {
        None
    } else {
        match n.data {
            BvhData::Leaf(s) => sphere_hit_spec(s, r, tmin, tmax),
            BvhData::Branch(l, rt) => combine_hits(
                bvh_hit_spec(*l, r, tmin, tmax),
                bvh_hit_spec(*rt, r, tmin, tmax),
            ),
        }
    }
}

/// The sort key used by construction: the lower corner of the
/// primitive's box on the chosen axis.
pub open spec fn sph_key(s: Sphere, ax: int) -> int {
    axis_spec(s.center, ax) - s.radius
}

/// `s` is ordered by the key on axis `ax`.
pub open spec fn sorted_by_key(s: Seq<Sphere>, ax: int) -> bool {
    forall|i: int, j: int|
        0 <= i <= j < s.len() ==> sph_key(s[i], ax) <= sph_key(s[j], ax)
}

/// The construction sort key of `s` on axis `ax`.
fn key_of(s: &Sphere, ax: usize) -> (k: i64)
    requires
        ax < 3,
        sphere_wf(*s),
    ensures
        k == sph_key(*s, ax as int),
{
    s.center.axis(ax) - s.radius
}

/// Selection sort of the primitive list by box lower bound on `ax`.
fn sort_spheres_by_axis(v: Vec<Sphere>, ax: usize) -> (out: Vec<Sphere>)
    requires
        ax < 3,
        forall|i: int| 0 <= i < v@.len() ==> sphere_wf(#[trigger] v@[i]),
    ensures
        out@.to_multiset() == v@.to_multiset(),
        out@.len() == v@.len(),
        forall|i: int| 0 <= i < out@.len() ==> sphere_wf(#[trigger] out@[i]),
        sorted_by_key(out@, ax as int),
{
    let mut rest = v;
    let mut out: Vec<Sphere> = Vec::new();
    proof {
        assert(out@.to_multiset().add(rest@.to_multiset()) =~= v@.to_multiset());
    }
    while rest.len() > 0
        invariant
            ax < 3,
            out@.to_multiset().add(rest@.to_multiset()) == v@.to_multiset(),
            out@.len() + rest@.len() == v@.len(),
            forall|i: int| 0 <= i < out@.len() ==> sphere_wf(#[trigger] out@[i]),
            forall|i: int| 0 <= i < rest@.len() ==> sphere_wf(#[trigger] rest@[i]),
            sorted_by_key(out@, ax as int),
            forall|i: int, j: int|
                0 <= i < out@.len() && 0 <= j < rest@.len()
                    ==> sph_key(out@[i], ax as int) <= sph_key(rest@[j], ax as int),
        decreases rest@.len(),
    {
        let mut jmin: usize = 0;
        let mut k: usize = 1;
        while k < rest.len()
            invariant
                ax < 3,
                rest@.len() > 0,
                jmin < rest@.len(),
                1 <= k <= rest@.len(),
                forall|i: int| 0 <= i < rest@.len() ==> sphere_wf(#[trigger] rest@[i]),
                forall|m: int|
                    0 <= m < k ==> sph_key(rest@[jmin as int], ax as int)
                        <= sph_key(#[trigger] rest@[m], ax as int),
            decreases rest@.len() - k,
        {
            if key_of(&rest[k], ax) < key_of(&rest[jmin], ax) {
                jmin = k;
            }
            k = k + 1;
        }
        let ghost rest_old = rest@;
        let ghost out_old = out@;
        let s = rest.remove(jmin);
        out.push(s);
        proof {
            assert(rest@ == rest_old.remove(jmin as int));
            assert(rest@.to_multiset() =~= rest_old.to_multiset().remove(s));
            assert(out@.to_multiset() =~= out_old.to_multiset().insert(s));
            assert(rest_old.to_multiset().count(s) > 0);
            assert(out@.to_multiset().add(rest@.to_multiset()) =~= v@.to_multiset());
        }
    }
    out
}

impl BvhNode {
    /// Build the tree over a nonempty primitive list: one primitive
    /// makes a leaf; more are sorted by box lower bound on a random
    /// axis, split at the middle and built recursively, the branch's
    /// box being the union of its children's.  The tree holds exactly
    /// the given primitives.
    pub fn new(prims: Vec<Sphere>) -> (node: BvhNode)
        requires
            prims@.len() >= 1,
            forall|i: int| 0 <= i < prims@.len() ==> sphere_wf(#[trigger] prims@[i]),
        ensures
            bvh_wf(node),
            bvh_prims(node).to_multiset() == prims@.to_multiset(),
            bvh_prims(node).len() == prims@.len(),
            bvh_height(node) == ceil_log2(prims@.len() as int),
        decreases prims@.len(),
    {
        if prims.len() == 1 {
            let s = prims[0];
            let bb = s.bbox();
            proof {
                assert(prims@ =~= seq![s]);
            }
            BvhNode { data: BvhData::Leaf(s), bounding_box: bb }
        } else {
            let ax = rand_axis();
            let mut sorted = sort_spheres_by_axis(prims, ax);
            let ghost whole = sorted@;
            let mid = sorted.len() / 2;
            let right_vec = sorted.split_off(mid);
            proof {
                assert(whole =~= sorted@ + right_vec@);
                lemma_multiset_commutative(sorted@, right_vec@);
            }
            let ghost len = whole.len() as int;
            proof {
                assert(sorted@.len() == len / 2 && right_vec@.len() == (len + 1) / 2) by {
                    vstd::arithmetic::div_mod::lemma_fundamental_div_mod(len, 2);
                    vstd::arithmetic::div_mod::lemma_fundamental_div_mod(len + 1, 2);
                    assert(len - len / 2 == (len + 1) / 2) by (nonlinear_arith)
                        requires
                            len == 2 * (len / 2) + len % 2,
                            len + 1 == 2 * ((len + 1) / 2) + (len + 1) % 2,
                            0 <= len % 2 < 2,
                            0 <= (len + 1) % 2 < 2,
                            len >= 2;
                }
            }
            let left = Box::new(BvhNode::new(sorted));
            let right = Box::new(BvhNode::new(right_vec));
            let bb = left.bounding_box.union(&right.bounding_box);
            let node = BvhNode { data: BvhData::Branch(left, right), bounding_box: bb };
            proof {
                lemma_multiset_commutative(
                    bvh_prims(*node.data.arrow_Branch_0()),
                    bvh_prims(*node.data.arrow_Branch_1()),
                );
                lemma_ceil_log2_mono(len / 2, (len + 1) / 2);
            }
            node
        }
    }

    /// Traverse the tree: prune at the box test, intersect the leaf
    /// primitive, and of the children's hits keep the closer one.
    pub fn intersect(&self, r: &Ray, t_min: i64, t_max: i64) -> (res: Option<Hit>)
        requires
            bvh_wf(*self),
            ray_wf(*r),
            absi(t_min as int) <= COORD_MAX as int,
            absi(t_max as int) <= COORD_MAX as int,
        ensures
            res == bvh_hit_spec(*self, *r, t_min as int, t_max as int),
        decreases *self,
    {
        if !self.bounding_box.hit(r, t_min, t_max) {
            return None;
        }
        match &self.data {
            BvhData::Leaf(s) => s.intersect(r, t_min, t_max),
            BvhData::Branch(l, rt) => {
                let left_hit = l.intersect(r, t_min, t_max);
                let right_hit = rt.intersect(r, t_min, t_max);
                match (left_hit, right_hit) {
                    (Some(lh), Some(rh)) => if lh.t < rh.t {
                        Some(lh)
                    } else {
                        Some(rh)
                    },
                    (Some(lh), None) => Some(lh),
                    (None, Some(rh)) => Some(rh),
                    (None, None) => None,
                }
            },
        }
    }

    /// The box around everything beneath this node.
    pub fn bbox(&self) -> (b: BBox)
        requires
            bvh_wf(*self),
        ensures
            b == self.bounding_box,
            bbox_wf(b),
    {
        self.bounding_box.clone()
    }
}

/// The box test never wrongly prunes for this ray and window: below
/// any node whose box the ray misses, no primitive is hit.  This is
/// the geometric premise of the traversal; rounding in the fixed-point
/// slab and root arithmetic can violate it for rays that graze a box
/// within one rounding step.
pub open spec fn prune_sound(n: BvhNode, r: Ray, tmin: int, tmax: int) -> bool
    decreases n,
{
    &&& (!bbox_hit_spec(n.bounding_box, r, tmin, tmax) ==> (forall|i: int|
        0 <= i < bvh_prims(n).len() ==> sphere_hit_spec(
            #[trigger] bvh_prims(n)[i],
            r,
            tmin,
            tmax,
        ) is None))
    &&& match n.data {
        BvhData::Branch(l, rt) => prune_sound(*l, r, tmin, tmax) && prune_sound(
            *rt,
            r,
            tmin,
            tmax,
        ),
        BvhData::Leaf(_) => true,
    }
}

/// `res` is what a linear scan over `prims` returns on the same
/// window: nothing when no primitive is hit, else a hit of one of the
/// primitives with the least parameter among all their hits.
pub open spec fn agrees_with_scan(
    prims: Seq<Sphere>,
    r: Ray,
    tmin: int,
    tmax: int,
    res: Option<Hit>,
) -> bool {
    match res {
        None => forall|i: int|
            0 <= i < prims.len() ==> sphere_hit_spec(#[trigger] prims[i], r, tmin, tmax) is None,
        Some(h) => {
            &&& exists|i: int|
                0 <= i < prims.len() && sphere_hit_spec(#[trigger] prims[i], r, tmin, tmax)
                    == Some(h)
            &&& forall|i: int|
                0 <= i < prims.len() ==> match sphere_hit_spec(#[trigger] prims[i], r, tmin, tmax) {
                    Some(hi) => h.t <= hi.t,
                    None => true,
                }
        },
    }
}

/// The tree traversal finds the same hit as a linear scan over every
/// primitive in the tree, whenever the box test prunes soundly for
/// this ray and window.
pub proof fn lemma_bvh_matches_scan(n: BvhNode, r: Ray, tmin: int, tmax: int)
    requires
        bvh_wf(n),
        prune_sound(n, r, tmin, tmax),
    ensures
        agrees_with_scan(bvh_prims(n), r, tmin, tmax, bvh_hit_spec(n, r, tmin, tmax)),
    decreases n,
{
    let prims = bvh_prims(n);
    let res = bvh_hit_spec(n, r, tmin, tmax);
    if !bbox_hit_spec(n.bounding_box, r, tmin, tmax) {
    } else {
        match n.data {
            BvhData::Leaf(s) => {
                assert(prims =~= seq![s]);
                if res is Some {
                    assert(sphere_hit_spec(prims[0], r, tmin, tmax) == res);
                }
            },
            BvhData::Branch(l, rt) => {
                lemma_bvh_matches_scan(*l, r, tmin, tmax);
                lemma_bvh_matches_scan(*rt, r, tmin, tmax);
                let lp = bvh_prims(*l);
                let rp = bvh_prims(*rt);
                assert(prims =~= lp + rp);
                let lres = bvh_hit_spec(*l, r, tmin, tmax);
                let rres = bvh_hit_spec(*rt, r, tmin, tmax);
                if lres is Some {
                    let lh = lres.unwrap();
                    let j = choose|j: int|
                        0 <= j < lp.len() && sphere_hit_spec(#[trigger] lp[j], r, tmin, tmax)
                            == Some(lh);
                    assert(prims[j] == lp[j]);
                    assert(sphere_hit_spec(prims[j], r, tmin, tmax) == Some(lh));
                }
                if rres is Some {
                    let rh = rres.unwrap();
                    let j = choose|j: int|
                        0 <= j < rp.len() && sphere_hit_spec(#[trigger] rp[j], r, tmin, tmax)
                            == Some(rh);
                    assert(prims[lp.len() + j] == rp[j]);
                    assert(sphere_hit_spec(prims[lp.len() + j], r, tmin, tmax) == Some(rh));
                }
                if res is Some {
                    let h = res.unwrap();
                    assert forall|i: int| 0 <= i < prims.len() implies match sphere_hit_spec(
                        #[trigger] prims[i],
                        r,
                        tmin,
                        tmax,
                    ) {
                        Some(hi) => h.t <= hi.t,
                        None => true,
                    } by {
                        if i < lp.len() {
                            assert(prims[i] == lp[i]);
                        } else {
                            assert(prims[i] == rp[i - lp.len()]);
                        }
                    }
                } else {
                    assert forall|i: int| 0 <= i < prims.len() implies sphere_hit_spec(
                        #[trigger] prims[i],
                        r,
                        tmin,
                        tmax,
                    ) is None by {
                        if i < lp.len() {
                            assert(prims[i] == lp[i]);
                        } else {
                            assert(prims[i] == rp[i - lp.len()]);
                        }
                    }
                }
            },
        }
    }
}

/// The box invariant, stated on its own: under a well-formed tree,
/// every branch's box is exactly the union of its children's boxes
/// and every leaf's box is exactly its primitive's box.
pub proof fn lemma_bvh_box_invariant(n: BvhNode)
    requires
        bvh_wf(n),
    ensures
        match n.data {
            BvhData::Branch(l, r) => n.bounding_box == bbox_union_spec(
                l.bounding_box,
                r.bounding_box,
            ),
            BvhData::Leaf(s) => n.bounding_box == s.bbox_spec(),
        },
{
}

/// The traversal and the linear scan over the tree's primitives
/// either both miss, or both hit at the same parameter, whenever the
/// box test prunes soundly for this ray and window.  (On ties between
/// distinct primitives hit at exactly equal parameters the two sides
/// may pick different records; such ties are the only freedom.)
pub proof fn lemma_bvh_equals_linear_scan(n: BvhNode, r: Ray, tmin: int, tmax: int)
    requires
        bvh_wf(n),
        prune_sound(n, r, tmin, tmax),
        -0x8000000000000000 <= tmin,
        tmax <= 0x7fffffffffffffff,
    ensures
        ({
            let via_tree = bvh_hit_spec(n, r, tmin, tmax);
            let via_scan = crate::primitive::scan_spheres_spec(bvh_prims(n), r, tmin, tmax, None);
            &&& via_tree is Some <==> via_scan is Some
            &&& via_tree is Some ==> via_tree.unwrap().t == via_scan.unwrap().t
        }),
{
    let prims = bvh_prims(n);
    let via_tree = bvh_hit_spec(n, r, tmin, tmax);
    let via_scan = crate::primitive::scan_spheres_spec(prims, r, tmin, tmax, None);
    lemma_bvh_matches_scan(n, r, tmin, tmax);
    crate::primitive::lemma_scan_spheres_agrees(prims, r, tmin, tmax, None);
    if via_scan is Some {
        let h = via_scan.unwrap();
        let i = choose|i: int|
            0 <= i < prims.len() && sphere_hit_spec(#[trigger] prims[i], r, tmin, tmax) == Some(h);
        crate::primitive::lemma_sphere_hit_in_window(prims[i], r, tmin, tmax);
        assert(agrees_with_scan(prims, r, tmin, tmax, via_scan));
    }
    lemma_scan_result_unique(prims, r, tmin, tmax, via_tree, via_scan);
}

/// When no two distinct primitives are hit at exactly the same
/// parameter, any two results that agree with the scan are the same
/// record: same position, normal and material.
pub proof fn lemma_scan_result_identical(
    prims: Seq<Sphere>,
    r: Ray,
    tmin: int,
    tmax: int,
    r1: Option<Hit>,
    r2: Option<Hit>,
)
    requires
        agrees_with_scan(prims, r, tmin, tmax, r1),
        agrees_with_scan(prims, r, tmin, tmax, r2),
        forall|i: int, j: int|
            0 <= i < prims.len() && 0 <= j < prims.len() && i != j ==> match (
                sphere_hit_spec(#[trigger] prims[i], r, tmin, tmax),
                sphere_hit_spec(#[trigger] prims[j], r, tmin, tmax),
            ) {
                (Some(hi), Some(hj)) => hi.t != hj.t,
                _ => true,
            },
    ensures
        r1 == r2,
{
    if r1 is Some {
        let h1 = r1.unwrap();
        let h2 = r2.unwrap();
        let i = choose|i: int|
            0 <= i < prims.len() && sphere_hit_spec(#[trigger] prims[i], r, tmin, tmax) == Some(h1);
        let j = choose|j: int|
            0 <= j < prims.len() && sphere_hit_spec(#[trigger] prims[j], r, tmin, tmax) == Some(h2);
        assert(h1.t == h2.t);
        if i != j {
            assert(false);
        }
    }
}

/// Two results that both agree with the scan agree with each other on
/// whether anything was hit and at which parameter; the hit records
/// themselves can differ only between primitives hit at exactly equal
/// parameters.
pub proof fn lemma_scan_result_unique(
    prims: Seq<Sphere>,
    r: Ray,
    tmin: int,
    tmax: int,
    r1: Option<Hit>,
    r2: Option<Hit>,
)
    requires
        agrees_with_scan(prims, r, tmin, tmax, r1),
        agrees_with_scan(prims, r, tmin, tmax, r2),
    ensures
        r1 is Some <==> r2 is Some,
        r1 is Some ==> r1.unwrap().t == r2.unwrap().t,
{
}

} // verus!
