//! Binary space partition tree: planes, nodes, and the point/ray
//! queries.
//!
//! A [`Tree`] owns an arena of [`Node`]s addressed by index.  Well
//! formedness ([`tree_wf`]) demands that every inner node's children sit
//! strictly later in the arena (which makes the structure acyclic and
//! every descent terminating) and that every leaf's `parent` index names
//! an inner node.  [`Tree::new`] checks these properties at construction
//! time, so queries never meet a dangling or cyclic reference.

use crate::math;
use crate::math::{
    dot_s, fdiv_s, fmul_s, lemma_fmul_bound, lemma_tdiv_neg, vec3_bounded, Vec3, EPSILON,
    MAX_COORD, NORM_MAX, SCALE,
};
use vstd::arithmetic::div_mod::lemma_div_pos_is_pos;
use vstd::prelude::*;

verus! {

/// A half-space boundary: the set of points `p` with
/// `dot(p, norm) == dist` (in fixed-point arithmetic), oriented by
/// `norm`.
///
/// `norm` is meant to be unit length; that is a documented precondition
/// of the geometry, not something the queries test.  [`Plane::wf`] only
/// bounds the components so that the arithmetic cannot overflow.
#[derive(Clone, Copy, Debug, PartialEq, Eq, Structural)]
pub struct Plane {
    pub norm: Vec3,
    pub dist: i64,
}

/// A ray: origin point plus direction vector.  The direction need not be
/// normalized; times of impact are measured in multiples of it.
#[derive(Clone, Copy, Debug, PartialEq, Eq, Structural)]
pub struct Ray {
    pub orig: Vec3,
    pub dir: Vec3,
}

/// A ray-cast hit: the ray parameter at the intersection and the normal
/// of the plane that was hit.
#[derive(Clone, Copy, Debug, PartialEq, Eq, Structural)]
pub struct CastResult {
    /// Time of impact, in fixed-point multiples of the ray direction.
    pub toi: i64,
    /// Normal of what it hit.  Always the stored plane normal,
    /// whichever side the ray approaches from.
    pub norm: Vec3,
}

pub type NodeIndex = usize;

/// One node of the tree: an inner partition or a leaf classification.
#[derive(Clone, Copy, Debug)]
pub enum Node {
    Inner {
        plane: Plane,
        /// Subtree on the side the normal points toward.
        pos: NodeIndex,
        /// Subtree against the normal.
        neg: NodeIndex,
    },
    Leaf {
        /// Index of the inner node whose plane was last crossed to
        /// reach this leaf.
        parent: NodeIndex,
        /// Whether the leaf region is solid.
        solid: bool,
    },
}

impl Plane {
    /// Component bounds that keep the query arithmetic inside `i64`.
    pub open spec fn wf(self) -> bool {
        &&& vec3_bounded(self.norm, NORM_MAX as int)
        &&& -MAX_COORD <= self.dist <= MAX_COORD
    }

    /// `dot(ray.dir, norm)`: how fast the ray moves along the normal.
    pub open spec fn rn_spec(self, ray: Ray) -> int {
        dot_s(ray.dir, self.norm)
    }

    /// `dot(norm * dist - ray.orig, norm)`: the scaled distance from
    /// the ray origin to the plane, measured along the normal.
    pub open spec fn nn_spec(self, ray: Ray) -> int {
        fmul_s(fmul_s(self.norm.x as int, self.dist as int) - ray.orig.x, self.norm.x as int)
            + fmul_s(fmul_s(self.norm.y as int, self.dist as int) - ray.orig.y, self.norm.y as int)
            + fmul_s(fmul_s(self.norm.z as int, self.dist as int) - ray.orig.z, self.norm.z as int)
    }

    /// The ray-plane intersection this crate computes: `None` when the
    /// ray is parallel off the plane or the crossing lies behind the
    /// origin, otherwise the time of impact and the stored normal.
    ///
    /// Acceptance is decided on the exact signs of the two dot products
    /// (the sign of the real quotient `nn / rn`), so that truncation
    /// cannot turn a slightly negative parameter into an accepted zero.
    pub open spec fn cast_ray_spec(self, ray: Ray) -> Option<(int, Vec3)> {
        let rn = self.rn_spec(ray);
        let nn = self.nn_spec(ray);
        if -EPSILON <= rn <= EPSILON {
            if -EPSILON <= nn <= EPSILON {
                Some((0, self.norm))
            } else {
                None
            }
        } else {
            if nn == 0 || ((nn > 0) == (rn > 0)) {
                Some((fdiv_s(nn, rn), self.norm))
            } else {
                None
            }
        }
    }

    /// Ray/plane intersection.  Returns the time of impact (`toi >= 0`,
    /// forward-only) and the plane's stored normal, or `None` when the
    /// ray is parallel off the plane or the crossing lies behind the
    /// origin.
    pub fn cast_ray(&self, ray: &Ray) -> (r: Option<CastResult>)
        requires
            self.wf(),
            ray.wf(),
        ensures
            cast_matches(r, self.cast_ray_spec(*ray)),
    {
        proof {
            lemma_fmul_bound(self.norm.x as int, self.dist as int, NORM_MAX as int, MAX_COORD as int);
            lemma_fmul_bound(self.norm.y as int, self.dist as int, NORM_MAX as int, MAX_COORD as int);
            lemma_fmul_bound(self.norm.z as int, self.dist as int, NORM_MAX as int, MAX_COORD as int);
        }
        let rn: i64 = math::dot(&ray.dir, &self.norm);
        let px: i64 = math::fmul(self.norm.x, self.dist);
        let py: i64 = math::fmul(self.norm.y, self.dist);
        let pz: i64 = math::fmul(self.norm.z, self.dist);
        let diff = Vec3 { x: px - ray.orig.x, y: py - ray.orig.y, z: pz - ray.orig.z };
        let nn: i64 = math::dot(&diff, &self.norm);
        if -EPSILON <= rn && rn <= EPSILON {
            if -EPSILON <= nn && nn <= EPSILON {
                Some(CastResult { toi: 0, norm: self.norm })
            } else {
                None
            }
        } else {
            if nn == 0 || ((nn > 0) == (rn > 0)) {
                Some(CastResult { toi: math::fdiv(nn, rn), norm: self.norm })
            } else {
                None
            }
        }
    }
}

impl Ray {
    /// Component bounds that keep the query arithmetic inside `i64`.
    pub open spec fn wf(self) -> bool {
        &&& vec3_bounded(self.orig, MAX_COORD as int)
        &&& vec3_bounded(self.dir, MAX_COORD as int)
    }

    /// Runtime test for [`Ray::wf`], for callers outside verified code.
    pub fn in_range(&self) -> (r: bool)
        ensures
            r == self.wf(),
    {
        in_coord_range(&self.orig) && in_coord_range(&self.dir)
    }
}

/// Runtime test that every component of `v` lies within
/// `±`[`MAX_COORD`], for callers outside verified code.
pub fn in_coord_range(v: &Vec3) -> (r: bool)
    ensures
        r == vec3_bounded(*v, MAX_COORD as int),
{
    -MAX_COORD <= v.x && v.x <= MAX_COORD && -MAX_COORD <= v.y && v.y <= MAX_COORD
        && -MAX_COORD <= v.z && v.z <= MAX_COORD
}

/// An executable hit equals a specified hit.
pub open spec fn cast_matches(r: Option<CastResult>, s: Option<(int, Vec3)>) -> bool {
    match (r, s) {
        (Some(c), Some(p)) => c.toi == p.0 && c.norm == p.1,
        (None, None) => true,
        _ => false,
    }
}

/// Node `i` of the arena only references valid places: an inner node's
/// children sit strictly after it (so every path moves forward and the
/// structure is acyclic), and a leaf's parent names an inner node.
pub open spec fn node_wf(nodes: Seq<Node>, i: int) -> bool {
    match nodes[i] {
        Node::Inner { plane, pos, neg } => {
            &&& plane.wf()
            &&& i < pos < nodes.len()
            &&& i < neg < nodes.len()
        },
        Node::Leaf { parent, .. } => {
            &&& parent < nodes.len()
            &&& nodes[parent as int] is Inner
        },
    }
}

/// The whole arena is well formed and the root index is valid.
pub open spec fn tree_wf(nodes: Seq<Node>, root: int) -> bool {
    &&& 0 <= root < nodes.len()
    &&& forall|i: int| 0 <= i < nodes.len() ==> node_wf(nodes, i)
}

/// Point containment by recursive descent: at an inner node follow the
/// side of the plane the point lies on, at a leaf report its
/// classification.
pub open spec fn contains_from(nodes: Seq<Node>, point: Vec3, i: int) -> bool
    decreases nodes.len() - i,
        when 0 <= i < nodes.len() && (forall|j: int| 0 <= j < nodes.len() ==> node_wf(nodes, j))
{
    match nodes[i] {
        Node::Inner { plane, pos, neg } => {
            proof {
                assert(node_wf(nodes, i));
            }
            if point_side(plane, point) > 0 {
                contains_from(nodes, point, pos as int)
            } else {
                contains_from(nodes, point, neg as int)
            }
        },
        Node::Leaf { solid, .. } => solid,
    }
}

/// The point's signed offset from the plane:
/// `dot(point - norm * dist, norm)` in fixed-point arithmetic.
pub open spec fn point_side(plane: Plane, point: Vec3) -> int {
    fmul_s(point.x - fmul_s(plane.norm.x as int, plane.dist as int), plane.norm.x as int) + fmul_s(
        point.y - fmul_s(plane.norm.y as int, plane.dist as int),
        plane.norm.y as int,
    ) + fmul_s(point.z - fmul_s(plane.norm.z as int, plane.dist as int), plane.norm.z as int)
}

/// Ray casting by recursive descent.  At an inner node the child on the
/// ray's side is searched first; when the ray crosses the plane the
/// other child is searched as well.  At a solid leaf the hit is
/// recomputed against the parent's plane — the boundary most recently
/// crossed to reach the leaf.
pub open spec fn cast_from(nodes: Seq<Node>, ray: Ray, i: int) -> Option<(int, Vec3)>
    decreases nodes.len() - i,
        when 0 <= i < nodes.len() && (forall|j: int| 0 <= j < nodes.len() ==> node_wf(nodes, j))
{
    match nodes[i] {
        Node::Inner { plane, pos, neg } => {
            proof {
                assert(node_wf(nodes, i));
            }
            let first = if plane.rn_spec(ray) > 0 {
                pos
            } else {
                neg
            };
            let last = if plane.rn_spec(ray) > 0 {
                neg
            } else {
                pos
            };
            if plane.cast_ray_spec(ray) is Some {
                if cast_from(nodes, ray, first as int) is Some {
                    cast_from(nodes, ray, first as int)
                } else {
                    cast_from(nodes, ray, last as int)
                }
            } else {
                cast_from(nodes, ray, first as int)
            }
        },
        Node::Leaf { parent, solid } => {
            if solid {
                match nodes[parent as int] {
                    Node::Inner { plane, .. } => plane.cast_ray_spec(ray),
                    Node::Leaf { .. } => None,
                }
            } else {
                None
            }
        },
    }
}

/// An index-addressed arena of nodes with a root index.  Built once,
/// never mutated: all queries borrow it immutably.
pub struct Tree {
    nodes: Vec<Node>,
    root: NodeIndex,
}

impl Tree {
    /// The arena contents.  The fields themselves stay private —
    /// [`Tree::new`] pins this view down for callers.
    pub closed spec fn nodes_spec(self) -> Seq<Node> {
        self.nodes@
    }

    /// The root index.
    pub closed spec fn root_spec(self) -> int {
        self.root as int
    }

    /// Structural well-formedness of the whole tree.
    pub open spec fn wf(self) -> bool {
        tree_wf(self.nodes_spec(), self.root_spec())
    }

    /// What [`Tree::cast_ray`] returns: `None` when the origin is
    /// already inside solid space, otherwise the recursive descent from
    /// the root.
    pub open spec fn cast_ray_result(self, ray: Ray) -> Option<(int, Vec3)> {
        if contains_from(self.nodes_spec(), ray.orig, self.root_spec()) {
            None
        } else {
            cast_from(self.nodes_spec(), ray, self.root_spec())
        }
    }

    /// Builds a tree after checking well-formedness: every inner node's
    /// children must sit strictly after it in the arena, every leaf's
    /// parent must name an inner node, plane components must be within
    /// the arithmetic bounds, and the root must be a valid index.
    /// Returns `None` exactly when one of these checks fails.
    pub fn new(nodes: Vec<Node>, root: NodeIndex) -> (r: Option<Tree>)
        ensures
            r is Some <==> tree_wf(nodes@, root as int),
            r matches Some(t) ==> t.nodes_spec() == nodes@ && t.root_spec() == root as int && t.wf(),
    {
        let n: usize = nodes.len();
        if root >= n {
            return None;
        }
        let mut i: usize = 0;
        while i < n
            invariant
                0 <= i <= n,
                n == nodes@.len(),
                forall|j: int| 0 <= j < i ==> node_wf(nodes@, j),
            decreases n - i,
        {
            match nodes[i] {
                Node::Inner { plane, pos, neg } => {
                    let norm_ok: bool = -NORM_MAX <= plane.norm.x && plane.norm.x <= NORM_MAX
                        && -NORM_MAX <= plane.norm.y && plane.norm.y <= NORM_MAX
                        && -NORM_MAX <= plane.norm.z && plane.norm.z <= NORM_MAX
                        && -MAX_COORD <= plane.dist && plane.dist <= MAX_COORD;
                    if !(norm_ok && i < pos && pos < n && i < neg && neg < n) {
                        assert(!node_wf(nodes@, i as int));
                        return None;
                    }
                },
                Node::Leaf { parent, .. } => {
                    if parent >= n {
                        assert(!node_wf(nodes@, i as int));
                        return None;
                    }
                    let inner: bool = match nodes[parent] {
                        Node::Inner { .. } => true,
                        Node::Leaf { .. } => false,
                    };
                    if !inner {
                        assert(!node_wf(nodes@, i as int));
                        return None;
                    }
                },
            }
            i = i + 1;
        }
        Some(Tree { nodes, root })
    }

    /// Number of nodes in the arena.
    pub fn node_count(&self) -> (r: usize)
        ensures
            r == self.nodes_spec().len(),
    {
        self.nodes.len()
    }

    /// The root index.
    pub fn root(&self) -> (r: usize)
        ensures
            r == self.root_spec(),
    {
        self.root
    }

    /// Whether `point` lies in a solid leaf of the partition.
    pub fn contains_point(&self, point: &Vec3) -> (r: bool)
        requires
            self.wf(),
            vec3_bounded(*point, MAX_COORD as int),
        ensures
            r == contains_from(self.nodes_spec(), *point, self.root_spec()),
    {
        self.contains_point_recursive(point, self.root)
    }

    fn contains_point_recursive(&self, point: &Vec3, nodeidx: NodeIndex) -> (r: bool)
        requires
            self.wf(),
            vec3_bounded(*point, MAX_COORD as int),
            nodeidx < self.nodes@.len(),
        ensures
            r == contains_from(self.nodes@, *point, nodeidx as int),
        decreases self.nodes@.len() - nodeidx,
    {
        proof {
            assert(node_wf(self.nodes@, nodeidx as int));
        }
        match &self.nodes[nodeidx] {
            Node::Inner { plane, pos, neg } => {
                proof {
                    lemma_fmul_bound(
                        plane.norm.x as int,
                        plane.dist as int,
                        NORM_MAX as int,
                        MAX_COORD as int,
                    );
                    lemma_fmul_bound(
                        plane.norm.y as int,
                        plane.dist as int,
                        NORM_MAX as int,
                        MAX_COORD as int,
                    );
                    lemma_fmul_bound(
                        plane.norm.z as int,
                        plane.dist as int,
                        NORM_MAX as int,
                        MAX_COORD as int,
                    );
                }
                let px: i64 = math::fmul(plane.norm.x, plane.dist);
                let py: i64 = math::fmul(plane.norm.y, plane.dist);
                let pz: i64 = math::fmul(plane.norm.z, plane.dist);
                let dir = Vec3 { x: point.x - px, y: point.y - py, z: point.z - pz };
                let side: i64 = math::dot(&dir, &plane.norm);
                if side > 0 {
                    self.contains_point_recursive(point, *pos)
                } else {
                    self.contains_point_recursive(point, *neg)
                }
            },
            Node::Leaf { solid, .. } => *solid,
        }
    }

    /// Casts a ray through the partition.  A ray whose origin is
    /// already classified solid returns `None` regardless of direction:
    /// the recursive traversal only detects crossings of boundaries,
    /// not the initial containment state.
    pub fn cast_ray(&self, ray: &Ray) -> (r: Option<CastResult>)
        requires
            self.wf(),
            ray.wf(),
        ensures
            cast_matches(r, self.cast_ray_result(*ray)),
            contains_from(self.nodes_spec(), ray.orig, self.root_spec()) ==> r is None,
    {
        if self.contains_point(&ray.orig) {
            None
        } else {
            self.cast_ray_recursive(ray, self.root)
        }
    }

    fn cast_ray_recursive(&self, ray: &Ray, nodeidx: NodeIndex) -> (r: Option<CastResult>)
        requires
            self.wf(),
            ray.wf(),
            nodeidx < self.nodes@.len(),
        ensures
            cast_matches(r, cast_from(self.nodes@, *ray, nodeidx as int)),
        decreases self.nodes@.len() - nodeidx,
    {
        proof {
            assert(node_wf(self.nodes@, nodeidx as int));
        }
        match &self.nodes[nodeidx] {
            Node::Inner { plane, pos, neg } => {
                let rn: i64 = {
                    proof {
                        lemma_fmul_bound(
                            ray.dir.x as int,
                            plane.norm.x as int,
                            MAX_COORD as int,
                            NORM_MAX as int,
                        );
                    }
                    math::dot(&ray.dir, &plane.norm)
                };
                let (first, last): (NodeIndex, NodeIndex) = if rn > 0 {
                    (*pos, *neg)
                } else {
                    (*neg, *pos)
                };
                if plane.cast_ray(ray).is_some() {
                    let hit = self.cast_ray_recursive(ray, first);
                    if hit.is_some() {
                        hit
                    } else {
                        self.cast_ray_recursive(ray, last)
                    }
                } else {
                    self.cast_ray_recursive(ray, first)
                }
            },
            Node::Leaf { parent, solid } => {
                if *solid {
                    proof {
                        assert(node_wf(self.nodes@, *parent as int));
                    }
                    match &self.nodes[*parent] {
                        Node::Inner { plane, .. } => plane.cast_ray(ray),
                        Node::Leaf { .. } => None,
                    }
                } else {
                    None
                }
            },
        }
    }
}

/// Repeated identical queries return identical results: the contracts
/// of [`Tree::cast_ray`] and [`Tree::contains_point`] pin each result
/// to a function of the tree's contents and the query alone (and both
/// borrow the tree immutably, so the contents cannot change between
/// calls).  Any two results the ray-cast contract admits for the same
/// query are therefore equal.
pub proof fn lemma_cast_result_unique(
    r1: Option<CastResult>,
    r2: Option<CastResult>,
    s: Option<(int, Vec3)>,
)
    requires
        cast_matches(r1, s),
        cast_matches(r2, s),
    ensures
        r1 == r2,
{
}

/// A ray aimed at a plane from strictly inside its negative side hits
/// it at a nonnegative time of impact with the stored normal, and the
/// same ray reversed (its direction negated) misses.
///
/// `nn > EPSILON` places the origin beyond tolerance on the negative
/// side; `rn > EPSILON` aims the ray toward the plane, beyond the
/// parallel tolerance.
pub proof fn lemma_cast_from_negative_side(p: Plane, r: Ray, rev: Ray)
    requires
        p.wf(),
        r.wf(),
        rev.orig == r.orig,
        rev.dir.x == -r.dir.x,
        rev.dir.y == -r.dir.y,
        rev.dir.z == -r.dir.z,
        p.nn_spec(r) > EPSILON,
        p.rn_spec(r) > EPSILON,
    ensures
        p.cast_ray_spec(r) matches Some(hit) && hit.0 >= 0 && hit.1 == p.norm,
        p.cast_ray_spec(rev) is None,
{
    vstd::arithmetic::mul::lemma_mul_unary_negation(r.dir.x as int, p.norm.x as int);
    vstd::arithmetic::mul::lemma_mul_unary_negation(r.dir.y as int, p.norm.y as int);
    vstd::arithmetic::mul::lemma_mul_unary_negation(r.dir.z as int, p.norm.z as int);
    lemma_tdiv_neg(r.dir.x * p.norm.x, SCALE as int);
    lemma_tdiv_neg(r.dir.y * p.norm.y, SCALE as int);
    lemma_tdiv_neg(r.dir.z * p.norm.z, SCALE as int);
    assert(p.rn_spec(rev) == -p.rn_spec(r));
    assert(p.nn_spec(rev) == p.nn_spec(r));
    lemma_div_pos_is_pos(p.nn_spec(r) * (SCALE as int), p.rn_spec(r));
}

} // verus!
