//! Convex polygon colliders.
//!
//! A polygon is an ordered list of vertices in entity-local space together
//! with one normal per edge, computed once at construction, and a trigger
//! flag. The stored normal of an edge is its exact perpendicular: where a
//! floating-point engine would scale each normal to unit length, this engine
//! keeps the perpendicular unscaled (a unit vector generally has irrational
//! coordinates) and divides by its squared length when a translation vector
//! is produced, which yields exactly the value a unit normal would give.

use vstd::prelude::*;
use crate::rat::{Rat, rat_wf, rat_eq, rat_lt, rat_neg, rat_mul};
use crate::vec2::{
    Vec2r, vec2_wf, vec2_add, vec2_sub, vec2_perp, vec2_is_zero, vec2_eq,
    lemma_vec2_sub_wf, lemma_vec2_add_wf,
};

verus! {

/// Why a polygon could not be built.
#[derive(Clone, Copy, Debug, PartialEq, Eq, Structural)]
pub enum GeometryError {
    /// Fewer than three vertices were given.
    TooFewVertices,
    /// Two consecutive vertices coincide, or a line's endpoints do.
    DegenerateEdge,
    /// A thick line was requested over a segment that is not axis-aligned;
    /// its exact corners would need irrational coordinates.
    SlantedSegment,
    /// An exact intermediate value left the machine range.
    OutOfRange,
}

/// A convex polygon collider in entity-local space.
#[derive(Clone, Debug)]
pub struct Polygon2D {
    pub verts: Vec<Vec2r>,
    pub normals: Vec<Vec2r>,
    pub is_trigger: bool,
}

/// What every polygon handed to the world must satisfy.
pub open spec fn poly_wf(p: Polygon2D) -> bool {
    &&& p.verts@.len() >= 3
    &&& p.normals@.len() == p.verts@.len()
    &&& forall|i: int| 0 <= i < p.verts@.len() ==> vec2_wf(#[trigger] p.verts@[i])
    &&& forall|i: int| 0 <= i < p.normals@.len() ==> vec2_wf(#[trigger] p.normals@[i])
}

/// The edge vector belonging to normal `i`: vertex `i` minus its successor,
/// the last edge wrapping around from the first vertex to the last.
pub open spec fn edge_vec(verts: Seq<Vec2r>, i: int) -> Option<Vec2r>
    recommends
        0 <= i < verts.len(),
        verts.len() >= 1,
{
    if i + 1 < verts.len() {
        vec2_sub(verts[i], verts[i + 1])
    } else {
        vec2_sub(verts[0], verts[verts.len() - 1])
    }
}

/// The normals for edges `i ..` of `verts`, scanning upward; the first
/// degenerate edge or out-of-range value decides the error.
pub open spec fn build_normals(verts: Seq<Vec2r>, i: int) -> Result<Seq<Vec2r>, GeometryError>
    recommends
        0 <= i <= verts.len(),
        verts.len() >= 1,
    decreases verts.len() - i,
{
    if i >= verts.len() {
        Ok(Seq::empty())
    } else {
        match edge_vec(verts, i) {
            None => Err(GeometryError::OutOfRange),
            Some(e) => if vec2_is_zero(e) {
                Err(GeometryError::DegenerateEdge)
            } else {
                match build_normals(verts, i + 1) {
                    Err(er) => Err(er),
                    Ok(rest) => Ok(seq![vec2_perp(e)] + rest),
                }
            },
        }
    }
}

/// What `Polygon2D::new(verts)` returns: the polygon with these vertices,
/// their edge normals and the trigger flag off, or the error that the
/// vertex scan finds first.
pub open spec fn polygon_matches(
    r: Result<Polygon2D, GeometryError>,
    verts: Seq<Vec2r>,
) -> bool {
    if verts.len() < 3 {
        r == Err::<Polygon2D, GeometryError>(GeometryError::TooFewVertices)
    } else {
        match build_normals(verts, 0) {
            Err(e) => r == Err::<Polygon2D, GeometryError>(e),
            Ok(ns) => match r {
                Ok(p) => p.verts@ == verts && p.normals@ == ns && !p.is_trigger,
                Err(_) => false,
            },
        }
    }
}

/// `nrm` is the exact perpendicular of edge `j`, which exists and is not
/// degenerate.
pub open spec fn normal_ok(verts: Seq<Vec2r>, j: int, nrm: Vec2r) -> bool {
    &&& edge_vec(verts, j) is Some
    &&& !vec2_is_zero(edge_vec(verts, j)->Some_0)
    &&& nrm == vec2_perp(edge_vec(verts, j)->Some_0)
    &&& vec2_wf(nrm)
}

/// One normal per edge from `i` on, each the perpendicular of its edge.
pub open spec fn normals_ok(verts: Seq<Vec2r>, i: int, ns: Seq<Vec2r>) -> bool {
    &&& ns.len() == verts.len() - i
    &&& forall|k: int| 0 <= k < ns.len() ==> #[trigger] normal_ok(verts, i + k, ns[k])
}

/// Normals built from well-formed vertices satisfy `normals_ok`: one per
/// edge, each the exact perpendicular of its nonzero edge, each well formed.
pub proof fn lemma_build_normals(verts: Seq<Vec2r>, i: int)
    requires
        0 <= i <= verts.len(),
        verts.len() >= 1,
        forall|k: int| 0 <= k < verts.len() ==> vec2_wf(#[trigger] verts[k]),
        build_normals(verts, i) is Ok,
    ensures
        normals_ok(verts, i, build_normals(verts, i)->Ok_0),
    decreases verts.len() - i,
{
    let ns = build_normals(verts, i)->Ok_0;
    if i < verts.len() {
        let e = edge_vec(verts, i)->Some_0;
        if i + 1 < verts.len() {
            lemma_vec2_sub_wf(verts[i], verts[i + 1]);
        } else {
            lemma_vec2_sub_wf(verts[0], verts[verts.len() - 1]);
        }
        lemma_build_normals(verts, i + 1);
        let rest = build_normals(verts, i + 1)->Ok_0;
        assert(ns == seq![vec2_perp(e)] + rest);
        assert forall|k: int| 0 <= k < ns.len() implies #[trigger] normal_ok(
            verts,
            i + k,
            ns[k],
        ) by {
            if k == 0 {
                assert(ns[0] == vec2_perp(e));
                assert(normal_ok(verts, i, vec2_perp(e)));
            } else {
                assert(ns[k] == rest[k - 1]);
                assert(normal_ok(verts, i + 1 + (k - 1), rest[k - 1]));
            }
        }
    } else {
        assert(ns.len() == 0);
    }
}

impl Polygon2D {
    /// Builds the polygon for these vertices: one exact perpendicular edge
    /// normal per vertex, trigger flag off. Rejects fewer than three
    /// vertices and any degenerate (zero-length) edge.
    pub fn new(verts: Vec<Vec2r>) -> (r: Result<Polygon2D, GeometryError>)
        requires
            forall|i: int| 0 <= i < verts@.len() ==> vec2_wf(#[trigger] verts@[i]),
        ensures
            polygon_matches(r, verts@),
            r matches Ok(p) ==> poly_wf(p),
    {
        let n = verts.len();
        if n < 3 {
            return Err(GeometryError::TooFewVertices);
        }
        let mut normals: Vec<Vec2r> = Vec::new();
        let mut i: usize = 0;
        proof {
            assert(Seq::<Vec2r>::empty() + build_normals(verts@, 0)->Ok_0
                =~= build_normals(verts@, 0)->Ok_0);
        }
        while i < n
            invariant
                0 <= i <= n,
                n == verts@.len(),
                n >= 3,
                forall|k: int| 0 <= k < verts@.len() ==> vec2_wf(#[trigger] verts@[k]),
                normals@.len() == i,
                forall|k: int| 0 <= k < normals@.len() ==> vec2_wf(#[trigger] normals@[k]),
                (match build_normals(verts@, i as int) {
                    Ok(rest) => build_normals(verts@, 0) == Ok::<Seq<Vec2r>, GeometryError>(
                        normals@ + rest,
                    ),
                    Err(e) => build_normals(verts@, 0) == Err::<Seq<Vec2r>, GeometryError>(e),
                }),
            decreases n - i,
        {
            let edge = if i + 1 < n {
                verts[i].checked_sub(verts[i + 1])
            } else {
                verts[0].checked_sub(verts[n - 1])
            };
            match edge {
                None => {
                    return Err(GeometryError::OutOfRange);
                },
                Some(e) => {
                    proof {
                        if i + 1 < n {
                            lemma_vec2_sub_wf(verts@[i as int], verts@[i + 1]);
                        } else {
                            lemma_vec2_sub_wf(verts@[0], verts@[n - 1]);
                        }
                    }
                    if e.is_zero() {
                        return Err(GeometryError::DegenerateEdge);
                    }
                    proof {
                        assert(normals@ + (seq![vec2_perp(e)]
                            + build_normals(verts@, i + 1)->Ok_0) =~= (normals@.push(
                            vec2_perp(e),
                        )) + build_normals(verts@, i + 1)->Ok_0);
                    }
                    normals.push(e.perp());
                },
            }
            i += 1;
        }
        proof {
            assert(normals@ + Seq::<Vec2r>::empty() =~= normals@);
        }
        Ok(Polygon2D { verts, normals, is_trigger: false })
    }

    /// The same geometry with the trigger flag replaced; the receiver is
    /// consumed, never mutated.
    pub fn set_trigger(self, is_trigger: bool) -> (r: Polygon2D)
        ensures
            r.verts@ == self.verts@,
            r.normals@ == self.normals@,
            r.is_trigger == is_trigger,
            poly_wf(self) ==> poly_wf(r),
    {
        Polygon2D { verts: self.verts, normals: self.normals, is_trigger }
    }

    /// A thin rectangle of half-thickness `thickness` on each side of the
    /// segment from `start` to `end`. The segment must be axis-aligned:
    /// the corners of a slanted thick line have irrational coordinates,
    /// which exact rationals cannot hold.
    pub fn new_line(start: Vec2r, end: Vec2r, thickness: Rat) -> (r: Result<
        Polygon2D,
        GeometryError,
    >)
        requires
            vec2_wf(start),
            vec2_wf(end),
            rat_wf(thickness),
        ensures
            match new_line_corners(start, end, thickness) {
                Err(e) => r == Err::<Polygon2D, GeometryError>(e),
                Ok(cs) => polygon_matches(r, cs) && (r matches Ok(p) ==> poly_wf(p)),
            },
    {
        let u: Vec2r = if start.x.eq_val(end.x) {
            if start.y.eq_val(end.y) {
                return Err(GeometryError::DegenerateEdge);
            }
            if start.y.lt(end.y) {
                Vec2r::from_ints(0, 1)
            } else {
                Vec2r::from_ints(0, -1)
            }
        } else if start.y.eq_val(end.y) {
            if start.x.lt(end.x) {
                Vec2r::from_ints(1, 0)
            } else {
                Vec2r::from_ints(-1, 0)
            }
        } else {
            return Err(GeometryError::SlantedSegment);
        };
        let pu = u.perp();
        let nu = Vec2r { x: u.x.neg(), y: u.y.neg() };
        let npu = Vec2r { x: pu.x.neg(), y: pu.y.neg() };
        let c1 = corner(nu, pu, thickness, start);
        let c2 = corner(nu, npu, thickness, start);
        let c3 = corner(u, npu, thickness, end);
        let c4 = corner(u, pu, thickness, end);
        match (c1, c2, c3, c4) {
            (Some(p1), Some(p2), Some(p3), Some(p4)) => {
                let mut cs: Vec<Vec2r> = Vec::new();
                cs.push(p1);
                cs.push(p2);
                cs.push(p3);
                cs.push(p4);
                proof {
                    lemma_corner_wf(vec2_neg(u), vec2_perp(u), thickness, start);
                    lemma_corner_wf(vec2_neg(u), vec2_neg(vec2_perp(u)), thickness, start);
                    lemma_corner_wf(u, vec2_neg(vec2_perp(u)), thickness, end);
                    lemma_corner_wf(u, vec2_perp(u), thickness, end);
                    assert(cs@ =~= new_line_corners(start, end, thickness)->Ok_0);
                }
                Polygon2D::new(cs)
            },
            _ => Err(GeometryError::OutOfRange),
        }
    }
}

/// The exact dot product of `a` and `b` is zero: over the common
/// denominator, the numerator of `a.x * b.x + a.y * b.y` vanishes.
pub open spec fn perpendicular(a: Vec2r, b: Vec2r) -> bool {
    (a.x.num * b.x.num) * (a.y.den * b.y.den) + (a.y.num * b.y.num) * (a.x.den * b.x.den) == 0
}

/// A polygon built from `n` vertices carries exactly `n` edge normals,
/// and each is orthogonal to its edge and nonzero. (The stored normal is
/// the exact unscaled perpendicular: a unit normal generally has
/// irrational coordinates, and dividing by the squared length later gives
/// exactly the value a unit normal would.)
pub proof fn lemma_edge_normals(verts: Seq<Vec2r>, k: int)
    requires
        verts.len() >= 3,
        forall|i: int| 0 <= i < verts.len() ==> vec2_wf(#[trigger] verts[i]),
        build_normals(verts, 0) is Ok,
        0 <= k < verts.len(),
    ensures
        build_normals(verts, 0)->Ok_0.len() == verts.len(),
        normal_ok(verts, k, build_normals(verts, 0)->Ok_0[k]),
        perpendicular(build_normals(verts, 0)->Ok_0[k], edge_vec(verts, k)->Some_0),
        !vec2_is_zero(build_normals(verts, 0)->Ok_0[k]),
{
    lemma_build_normals(verts, 0);
    let ns = build_normals(verts, 0)->Ok_0;
    assert(normal_ok(verts, 0 + k, ns[k]));
    let e = edge_vec(verts, k)->Some_0;
    if k + 1 < verts.len() {
        lemma_vec2_sub_wf(verts[k], verts[k + 1]);
    } else {
        lemma_vec2_sub_wf(verts[0], verts[verts.len() - 1]);
    }
    let nrm = ns[k];
    assert(nrm == vec2_perp(e));
    assert(nrm.x.num == -e.y.num && nrm.x.den == e.y.den && nrm.y == e.x);
    assert(((-e.y.num) * e.x.num) * (e.x.den * e.y.den) + (e.x.num * e.y.num) * (e.y.den
        * e.x.den) == 0) by (nonlinear_arith);
}

/// Componentwise exact negation; always fits.
pub open spec fn vec2_neg(v: Vec2r) -> Vec2r {
    Vec2r { x: rat_neg(v.x), y: rat_neg(v.y) }
}

/// `(a + b) * t + base`, each step exact, `None` when a value leaves the
/// machine range.
pub open spec fn corner_spec(a: Vec2r, b: Vec2r, t: Rat, base: Vec2r) -> Option<Vec2r> {
    match vec2_add(a, b) {
        None => None,
        Some(o) => match rat_mul(o.x, t) {
            None => None,
            Some(sx) => match rat_mul(o.y, t) {
                None => None,
                Some(sy) => vec2_add(Vec2r { x: sx, y: sy }, base),
            },
        },
    }
}

/// A corner that came out is well formed.
proof fn lemma_corner_wf(a: Vec2r, b: Vec2r, t: Rat, base: Vec2r)
    requires
        vec2_wf(a),
        vec2_wf(b),
        rat_wf(t),
        vec2_wf(base),
        corner_spec(a, b, t, base) matches Some(_),
    ensures
        corner_spec(a, b, t, base) matches Some(c) ==> vec2_wf(c),
{
    if let Some(o) = vec2_add(a, b) {
        lemma_vec2_add_wf(a, b);
        if let Some(sx) = rat_mul(o.x, t) {
            crate::rat::lemma_rat_mul_exact(o.x, t);
            if let Some(sy) = rat_mul(o.y, t) {
                crate::rat::lemma_rat_mul_exact(o.y, t);
                lemma_vec2_add_wf(Vec2r { x: sx, y: sy }, base);
            }
        }
    }
}

fn corner(a: Vec2r, b: Vec2r, t: Rat, base: Vec2r) -> (r: Option<Vec2r>)
    requires
        vec2_wf(a),
        vec2_wf(b),
        rat_wf(t),
        vec2_wf(base),
    ensures
        r == corner_spec(a, b, t, base),
{
    match a.checked_add(b) {
        None => None,
        Some(o) => {
            proof {
                lemma_vec2_add_wf(a, b);
            }
            match o.x.checked_mul(t) {
                None => None,
                Some(sx) => match o.y.checked_mul(t) {
                    None => None,
                    Some(sy) => {
                        proof {
                            crate::rat::lemma_rat_mul_exact(o.x, t);
                            crate::rat::lemma_rat_mul_exact(o.y, t);
                        }
                        Vec2r { x: sx, y: sy }.checked_add(base)
                    },
                },
            }
        },
    }
}

/// The unit direction of an axis-aligned segment, or why there is none.
pub open spec fn line_dir(start: Vec2r, end: Vec2r) -> Result<Vec2r, GeometryError> {
    if rat_eq(start.x, end.x) {
        if rat_eq(start.y, end.y) {
            Err(GeometryError::DegenerateEdge)
        } else if rat_lt(start.y, end.y) {
            Ok(Vec2r { x: Rat { num: 0i64, den: 1i64 }, y: Rat { num: 1i64, den: 1i64 } })
        } else {
            Ok(Vec2r { x: Rat { num: 0i64, den: 1i64 }, y: Rat { num: -1i64, den: 1i64 } })
        }
    } else if rat_eq(start.y, end.y) {
        if rat_lt(start.x, end.x) {
            Ok(Vec2r { x: Rat { num: 1i64, den: 1i64 }, y: Rat { num: 0i64, den: 1i64 } })
        } else {
            Ok(Vec2r { x: Rat { num: -1i64, den: 1i64 }, y: Rat { num: 0i64, den: 1i64 } })
        }
    } else {
        Err(GeometryError::SlantedSegment)
    }
}

/// The four corners of the thick line: each endpoint offset by `thickness`
/// along the segment direction and its perpendicular, on both sides.
pub open spec fn new_line_corners(start: Vec2r, end: Vec2r, t: Rat) -> Result<
    Seq<Vec2r>,
    GeometryError,
> {
    match line_dir(start, end) {
        Err(e) => Err(e),
        Ok(u) => {
            let pu = vec2_perp(u);
            let c1 = corner_spec(vec2_neg(u), pu, t, start);
            let c2 = corner_spec(vec2_neg(u), vec2_neg(pu), t, start);
            let c3 = corner_spec(u, vec2_neg(pu), t, end);
            let c4 = corner_spec(u, pu, t, end);
            match (c1, c2, c3, c4) {
                (Some(p1), Some(p2), Some(p3), Some(p4)) => Ok(
                    seq![p1, p2, p3, p4],
                ),
                _ => Err(GeometryError::OutOfRange),
            }
        },
    }
}

} // verus!
