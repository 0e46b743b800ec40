//! Pairwise overlap testing by the separating axis theorem.
//!
//! Two convex polygons do not overlap exactly when some axis — here always
//! one of the edge normals of either polygon — separates their projections.
//! When no axis separates them, each axis yields the signed 1D displacement
//! of smallest magnitude that would separate the projected intervals, and
//! the axis whose displacement has the smallest world-space magnitude gives
//! the minimum translation vector (MTV).
//!
//! Axes are exact edge perpendiculars, not unit vectors, so a projection is
//! scaled by the axis length and the final translation divides by the
//! squared axis length; the resulting vector equals exactly what a unit
//! normal would give.

use vstd::prelude::*;
use crate::rat::{
    Rat, rat_wf, rat_le, rat_lt, rat_sub, rat_abs, rat_mul, rat_div, rat_neg, rat_recip,
    lemma_rat_add_exact, lemma_rat_mul_exact, lemma_rat_le_trans,
};
use crate::vec2::{Vec2r, vec2_wf, vec2_add, vec2_dot, lemma_vec2_add_wf};
use crate::polygon::{Polygon2D, poly_wf};

verus! {

/// What the pairwise test found.
#[derive(Clone, Copy, Debug)]
pub enum PairResult {
    /// A separating axis exists: the polygons do not overlap.
    NoOverlap,
    /// The polygons overlap; adding the vector to the first polygon's
    /// position removes the smallest-magnitude overlap.
    Overlap(Vec2r),
    /// An exact intermediate value left the machine range, so the test
    /// could not be decided; callers treat the move as unresolvable.
    OutOfRange,
}

/// What one axis contributes.
pub enum AxisOutcome {
    /// The projected intervals do not overlap.
    Separated,
    /// The signed displacement, in projection units, of smallest magnitude
    /// that separates the projected intervals.
    Candidate(Rat),
    /// An exact intermediate value left the machine range.
    OutOfRange,
}

/// The projection of world-space vertex `v + pos` onto `axis`.
pub open spec fn project_vertex(pos: Vec2r, v: Vec2r, axis: Vec2r) -> Option<Rat> {
    match vec2_add(v, pos) {
        None => None,
        Some(w) => vec2_dot(w, axis),
    }
}

/// Extends the running projection interval `[mn, mx]` with vertices `i ..`.
pub open spec fn proj_interval_from(
    pos: Vec2r,
    verts: Seq<Vec2r>,
    axis: Vec2r,
    i: int,
    mn: Rat,
    mx: Rat,
) -> Option<(Rat, Rat)>
    decreases verts.len() - i,
{
    if i >= verts.len() {
        Some((mn, mx))
    } else {
        match project_vertex(pos, verts[i], axis) {
            None => None,
            Some(p) => proj_interval_from(
                pos,
                verts,
                axis,
                i + 1,
                if rat_lt(p, mn) {
                    p
                } else {
                    mn
                },
                if rat_lt(mx, p) {
                    p
                } else {
                    mx
                },
            ),
        }
    }
}

/// The exact projection interval of the polygon with vertices `verts` at
/// position `pos` onto `axis`.
pub open spec fn proj_interval(pos: Vec2r, verts: Seq<Vec2r>, axis: Vec2r) -> Option<(Rat, Rat)>
    recommends
        verts.len() >= 1,
{
    match project_vertex(pos, verts[0], axis) {
        None => None,
        Some(f) => proj_interval_from(pos, verts, axis, 0, f, f),
    }
}

/// A projection interval is ordered: its minimum never exceeds its
/// maximum, so the four-case analysis below always applies to intervals
/// that overlap.
pub proof fn lemma_interval_ordered(
    pos: Vec2r,
    verts: Seq<Vec2r>,
    axis: Vec2r,
    i: int,
    mn: Rat,
    mx: Rat,
)
    requires
        vec2_wf(pos),
        vec2_wf(axis),
        forall|k: int| 0 <= k < verts.len() ==> vec2_wf(#[trigger] verts[k]),
        rat_wf(mn),
        rat_wf(mx),
        rat_le(mn, mx),
        0 <= i,
        proj_interval_from(pos, verts, axis, i, mn, mx) is Some,
    ensures
        proj_interval_from(pos, verts, axis, i, mn, mx) matches Some(b) ==> rat_le(b.0, b.1),
    decreases verts.len() - i,
{
    if i < verts.len() {
        if let Some(p) = project_vertex(pos, verts[i], axis) {
            lemma_project_wf(pos, verts[i], axis);
            let nmn = if rat_lt(p, mn) {
                p
            } else {
                mn
            };
            let nmx = if rat_lt(mx, p) {
                p
            } else {
                mx
            };
            assert(rat_le(nmn, nmx)) by {
                if rat_lt(p, mn) && !rat_lt(mx, p) {
                    lemma_rat_le_trans(p, mn, mx);
                }
                if !rat_lt(p, mn) && rat_lt(mx, p) {
                    lemma_rat_le_trans(mn, mx, p);
                }
            }
            lemma_interval_ordered(pos, verts, axis, i + 1, nmn, nmx);
        }
    }
}

/// An interval that a projection produced is ordered: `mn <= mx`.
pub proof fn lemma_proj_interval_ordered(pos: Vec2r, verts: Seq<Vec2r>, axis: Vec2r)
    requires
        vec2_wf(pos),
        vec2_wf(axis),
        verts.len() >= 1,
        forall|k: int| 0 <= k < verts.len() ==> vec2_wf(#[trigger] verts[k]),
        proj_interval(pos, verts, axis) is Some,
    ensures
        proj_interval(pos, verts, axis) matches Some(b) ==> rat_le(b.0, b.1),
{
    if let Some(f) = project_vertex(pos, verts[0], axis) {
        lemma_project_wf(pos, verts[0], axis);
        lemma_interval_ordered(pos, verts, axis, 0, f, f);
    }
}

/// The four-case 1D penetration test of two overlapping intervals: the
/// signed displacement of smallest magnitude that separates `[mn1, mx1]`
/// from `[mn2, mx2]`, or `Separated` when they do not overlap. The final
/// arm can never be reached by ordered intervals (`lemma_axis_cases_cover`).
pub open spec fn axis_penetration(mn1: Rat, mx1: Rat, mn2: Rat, mx2: Rat) -> AxisOutcome {
    if rat_le(mx1, mn2) || rat_le(mx2, mn1) {
        AxisOutcome::Separated
    } else if rat_le(mn2, mn1) && rat_le(mn1, mx2) && rat_le(mn2, mx1) && rat_le(mx1, mx2) {
        // interval 1 lies entirely within interval 2
        match (rat_sub(mn2, mx1), rat_sub(mx2, mn1)) {
            (Some(left), Some(right)) => AxisOutcome::Candidate(
                if rat_le(rat_abs(left), right) {
                    left
                } else {
                    right
                },
            ),
            _ => AxisOutcome::OutOfRange,
        }
    } else if rat_le(mx2, mx1) && rat_le(mn1, mx2) && rat_le(mn1, mn2) && rat_le(mn2, mx1) {
        // interval 2 lies entirely within interval 1
        match (rat_sub(mn1, mx2), rat_sub(mx1, mn2)) {
            (Some(left), Some(right)) => AxisOutcome::Candidate(
                if rat_le(rat_abs(left), right) {
                    left
                } else {
                    right
                },
            ),
            _ => AxisOutcome::OutOfRange,
        }
    } else if rat_le(mx1, mx2) && rat_le(mn2, mx1) {
        // only mx1 lies inside interval 2
        match rat_sub(mn2, mx1) {
            Some(d) => AxisOutcome::Candidate(d),
            None => AxisOutcome::OutOfRange,
        }
    } else if rat_le(mn1, mx2) && rat_le(mn2, mn1) {
        // only mn1 lies inside interval 2
        match rat_sub(mx2, mn1) {
            Some(d) => AxisOutcome::Candidate(d),
            None => AxisOutcome::OutOfRange,
        }
    } else {
        // unreachable for real intervals that overlap; see
        // lemma_axis_cases_cover
        AxisOutcome::OutOfRange
    }
}

/// Overlapping intervals always fall under one of the four cases: the
/// final arm of `axis_penetration` can never be reached by intervals
/// `mn1 <= mx1`, `mn2 <= mx2` that were not separated.
pub proof fn lemma_axis_cases_cover(mn1: Rat, mx1: Rat, mn2: Rat, mx2: Rat)
    requires
        rat_wf(mn1),
        rat_wf(mx1),
        rat_wf(mn2),
        rat_wf(mx2),
        rat_le(mn1, mx1),
        rat_le(mn2, mx2),
        !rat_le(mx1, mn2),
        !rat_le(mx2, mn1),
    ensures
        (rat_le(mn2, mn1) && rat_le(mn1, mx2) && rat_le(mn2, mx1) && rat_le(mx1, mx2)) || (rat_le(
            mx2,
            mx1,
        ) && rat_le(mn1, mx2) && rat_le(mn1, mn2) && rat_le(mn2, mx1)) || (rat_le(mx1, mx2)
            && rat_le(mn2, mx1)) || (rat_le(mn1, mx2) && rat_le(mn2, mn1)),
{
    if rat_le(mx1, mx2) {
        // third case: mx1 inside interval 2, since mn2 < mx1
    } else {
        if rat_le(mn2, mn1) {
            // fourth case: mn1 inside interval 2, since mn1 < mx2
        } else {
            // interval 2 lies inside interval 1
            lemma_rat_le_trans(mn2, mx2, mx1);
        }
    }
}

/// The squared world-space magnitude of the translation that displacement
/// `d` along `axis` denotes: `d^2 / |axis|^2`.
pub open spec fn mag_sq(d: Rat, axis: Vec2r) -> Option<Rat> {
    match rat_mul(d, d) {
        None => None,
        Some(d2) => match vec2_dot(axis, axis) {
            None => None,
            Some(m2) => if m2.num == 0 {
                None
            } else {
                rat_div(d2, m2)
            },
        },
    }
}

/// The translation vector that displacement `d` in projection units along
/// `axis` denotes: `(d / |axis|^2) * axis`, exactly the vector a unit axis
/// would give.
pub open spec fn mtv_from(d: Rat, axis: Vec2r) -> Option<Vec2r> {
    match vec2_dot(axis, axis) {
        None => None,
        Some(m2) => if m2.num == 0 {
            None
        } else {
            match rat_mul(d, axis.x) {
                None => None,
                Some(nx) => match rat_mul(d, axis.y) {
                    None => None,
                    Some(ny) => match rat_div(nx, m2) {
                        None => None,
                        Some(x) => match rat_div(ny, m2) {
                            None => None,
                            Some(y) => Some(Vec2r { x, y }),
                        },
                    },
                },
            }
        },
    }
}

/// Runs axes `i ..` of the union of both polygons' normals, tracking the
/// best (smallest-magnitude) candidate as `(displacement, axis, squared
/// magnitude)`; a later candidate replaces an equal earlier one.
pub open spec fn sat_from(
    p1: Vec2r,
    verts1: Seq<Vec2r>,
    p2: Vec2r,
    verts2: Seq<Vec2r>,
    axes: Seq<Vec2r>,
    i: int,
    best: Option<(Rat, Vec2r, Rat)>,
) -> PairResult
    decreases axes.len() - i,
{
    if i >= axes.len() {
        match best {
            None => PairResult::OutOfRange,
            Some((d, axis, q)) => match mtv_from(d, axis) {
                None => PairResult::OutOfRange,
                Some(v) => PairResult::Overlap(v),
            },
        }
    } else {
        let axis = axes[i];
        match proj_interval(p1, verts1, axis) {
            None => PairResult::OutOfRange,
            Some((mn1, mx1)) => match proj_interval(p2, verts2, axis) {
                None => PairResult::OutOfRange,
                Some((mn2, mx2)) => match axis_penetration(mn1, mx1, mn2, mx2) {
                    AxisOutcome::Separated => PairResult::NoOverlap,
                    AxisOutcome::OutOfRange => PairResult::OutOfRange,
                    AxisOutcome::Candidate(d) => match mag_sq(d, axis) {
                        None => PairResult::OutOfRange,
                        Some(q) => sat_from(
                            p1,
                            verts1,
                            p2,
                            verts2,
                            axes,
                            i + 1,
                            match best {
                                None => Some((d, axis, q)),
                                Some((bd, baxis, bq)) => if rat_le(q, bq) {
                                    Some((d, axis, q))
                                } else {
                                    Some((bd, baxis, bq))
                                },
                            },
                        ),
                    },
                },
            },
        }
    }
}

/// The SAT test between the polygon `c1` at `p1` and `c2` at `p2`:
/// `NoOverlap` exactly when some normal of either polygon separates the
/// projections, else the minimum translation vector for `c1`.
pub open spec fn sat_pair(p1: Vec2r, c1: Polygon2D, p2: Vec2r, c2: Polygon2D) -> PairResult {
    sat_from(p1, c1.verts@, p2, c2.verts@, c1.normals@ + c2.normals@, 0, None)
}

/// The pairwise test as move resolution sees it: a trigger obstacle never
/// resists a mover, so it reports no overlap without being tested.
pub open spec fn check_pair(p1: Vec2r, c1: Polygon2D, p2: Vec2r, c2: Polygon2D) -> PairResult {
    if c2.is_trigger {
        PairResult::NoOverlap
    } else {
        sat_pair(p1, c1, p2, c2)
    }
}

/// A projection that came out is well formed.
pub proof fn lemma_project_wf(pos: Vec2r, v: Vec2r, axis: Vec2r)
    requires
        vec2_wf(pos),
        vec2_wf(v),
        vec2_wf(axis),
        project_vertex(pos, v, axis) is Some,
    ensures
        project_vertex(pos, v, axis) matches Some(p) ==> rat_wf(p),
{
    if let Some(w) = vec2_add(v, pos) {
        lemma_vec2_add_wf(v, pos);
        lemma_dot_wf(w, axis);
    }
}

/// A dot product that came out is well formed.
pub proof fn lemma_dot_wf(a: Vec2r, b: Vec2r)
    requires
        vec2_wf(a),
        vec2_wf(b),
        vec2_dot(a, b) is Some,
    ensures
        vec2_dot(a, b) matches Some(r) ==> rat_wf(r),
{
    if let Some(px) = rat_mul(a.x, b.x) {
        lemma_rat_mul_exact(a.x, b.x);
        if let Some(py) = rat_mul(a.y, b.y) {
            lemma_rat_mul_exact(a.y, b.y);
            if crate::rat::rat_add(px, py) is Some {
                lemma_rat_add_exact(px, py);
            }
        }
    }
}

/// A difference that came out is well formed.
pub proof fn lemma_sub_wf(a: Rat, b: Rat)
    requires
        rat_wf(a),
        rat_wf(b),
        rat_sub(a, b) is Some,
    ensures
        rat_sub(a, b) matches Some(r) ==> rat_wf(r),
{
    lemma_rat_add_exact(a, rat_neg(b));
}

/// An interval that came out has well-formed bounds.
pub proof fn lemma_interval_from_wf(
    pos: Vec2r,
    verts: Seq<Vec2r>,
    axis: Vec2r,
    i: int,
    mn: Rat,
    mx: Rat,
)
    requires
        vec2_wf(pos),
        vec2_wf(axis),
        forall|k: int| 0 <= k < verts.len() ==> vec2_wf(#[trigger] verts[k]),
        rat_wf(mn),
        rat_wf(mx),
        0 <= i,
        proj_interval_from(pos, verts, axis, i, mn, mx) is Some,
    ensures
        proj_interval_from(pos, verts, axis, i, mn, mx) matches Some(b) ==> rat_wf(b.0) && rat_wf(
            b.1,
        ),
    decreases verts.len() - i,
{
    if i < verts.len() {
        if let Some(p) = project_vertex(pos, verts[i], axis) {
            lemma_project_wf(pos, verts[i], axis);
            lemma_interval_from_wf(
                pos,
                verts,
                axis,
                i + 1,
                if rat_lt(p, mn) {
                    p
                } else {
                    mn
                },
                if rat_lt(mx, p) {
                    p
                } else {
                    mx
                },
            );
        }
    }
}

/// A candidate displacement that came out is well formed.
pub proof fn lemma_penetration_wf(mn1: Rat, mx1: Rat, mn2: Rat, mx2: Rat)
    requires
        rat_wf(mn1),
        rat_wf(mx1),
        rat_wf(mn2),
        rat_wf(mx2),
    ensures
        axis_penetration(mn1, mx1, mn2, mx2) matches AxisOutcome::Candidate(d) ==> rat_wf(d),
{
    if rat_sub(mn2, mx1) is Some {
        lemma_sub_wf(mn2, mx1);
    }
    if rat_sub(mx2, mn1) is Some {
        lemma_sub_wf(mx2, mn1);
    }
    if rat_sub(mn1, mx2) is Some {
        lemma_sub_wf(mn1, mx2);
    }
    if rat_sub(mx1, mn2) is Some {
        lemma_sub_wf(mx1, mn2);
    }
}

/// A squared magnitude that came out is well formed.
pub proof fn lemma_mag_sq_wf(d: Rat, axis: Vec2r)
    requires
        rat_wf(d),
        vec2_wf(axis),
        mag_sq(d, axis) is Some,
    ensures
        mag_sq(d, axis) matches Some(q) ==> rat_wf(q),
{
    if let Some(d2) = rat_mul(d, d) {
        lemma_rat_mul_exact(d, d);
        if let Some(m2) = vec2_dot(axis, axis) {
            lemma_dot_wf(axis, axis);
            if m2.num != 0 {
                lemma_rat_mul_exact(d2, rat_recip(m2));
            }
        }
    }
}

/// A translation vector that came out is well formed.
pub proof fn lemma_mtv_wf(d: Rat, axis: Vec2r)
    requires
        rat_wf(d),
        vec2_wf(axis),
        mtv_from(d, axis) is Some,
    ensures
        mtv_from(d, axis) matches Some(v) ==> vec2_wf(v),
{
    if let Some(m2) = vec2_dot(axis, axis) {
        lemma_dot_wf(axis, axis);
        if m2.num != 0 {
            if let Some(nx) = rat_mul(d, axis.x) {
                lemma_rat_mul_exact(d, axis.x);
                if let Some(ny) = rat_mul(d, axis.y) {
                    lemma_rat_mul_exact(d, axis.y);
                    if rat_div(nx, m2) is Some {
                        lemma_rat_mul_exact(nx, rat_recip(m2));
                    }
                    if rat_div(ny, m2) is Some {
                        lemma_rat_mul_exact(ny, rat_recip(m2));
                    }
                }
            }
        }
    }
}

/// An overlap vector produced by the fold is well formed.
pub proof fn lemma_sat_from_wf(
    p1: Vec2r,
    verts1: Seq<Vec2r>,
    p2: Vec2r,
    verts2: Seq<Vec2r>,
    axes: Seq<Vec2r>,
    i: int,
    best: Option<(Rat, Vec2r, Rat)>,
)
    requires
        vec2_wf(p1),
        vec2_wf(p2),
        verts1.len() >= 1,
        verts2.len() >= 1,
        forall|k: int| 0 <= k < verts1.len() ==> vec2_wf(#[trigger] verts1[k]),
        forall|k: int| 0 <= k < verts2.len() ==> vec2_wf(#[trigger] verts2[k]),
        forall|k: int| 0 <= k < axes.len() ==> vec2_wf(#[trigger] axes[k]),
        best matches Some(b) ==> rat_wf(b.0) && vec2_wf(b.1) && rat_wf(b.2),
        0 <= i,
    ensures
        sat_from(p1, verts1, p2, verts2, axes, i, best) matches PairResult::Overlap(v)
            ==> vec2_wf(v),
    decreases axes.len() - i,
{
    if i >= axes.len() {
        if let Some((d, axis, q)) = best {
            if mtv_from(d, axis) is Some {
                lemma_mtv_wf(d, axis);
            }
        }
    } else {
        let axis = axes[i];
        if let Some((mn1, mx1)) = proj_interval(p1, verts1, axis) {
            if let Some((mn2, mx2)) = proj_interval(p2, verts2, axis) {
                if let AxisOutcome::Candidate(d) = axis_penetration(mn1, mx1, mn2, mx2) {
                    if let Some(q) = mag_sq(d, axis) {
                        lemma_interval_wf_for(p1, verts1, axis);
                        lemma_interval_wf_for(p2, verts2, axis);
                        lemma_penetration_wf(mn1, mx1, mn2, mx2);
                        lemma_mag_sq_wf(d, axis);
                        let nb = match best {
                            None => Some((d, axis, q)),
                            Some((bd, baxis, bq)) => if rat_le(q, bq) {
                                Some((d, axis, q))
                            } else {
                                Some((bd, baxis, bq))
                            },
                        };
                        lemma_sat_from_wf(p1, verts1, p2, verts2, axes, i + 1, nb);
                    }
                }
            }
        }
    }
}

fn project(pos: Vec2r, v: Vec2r, axis: Vec2r) -> (r: Option<Rat>)
    requires
        vec2_wf(pos),
        vec2_wf(v),
        vec2_wf(axis),
    ensures
        r == project_vertex(pos, v, axis),
{
    match v.checked_add(pos) {
        None => None,
        Some(w) => {
            proof {
                lemma_vec2_add_wf(v, pos);
            }
            w.dot(axis)
        },
    }
}

fn interval(pos: Vec2r, verts: &Vec<Vec2r>, axis: Vec2r) -> (r: Option<(Rat, Rat)>)
    requires
        vec2_wf(pos),
        vec2_wf(axis),
        verts@.len() >= 1,
        forall|k: int| 0 <= k < verts@.len() ==> vec2_wf(#[trigger] verts@[k]),
    ensures
        r == proj_interval(pos, verts@, axis),
{
    let first = match project(pos, verts[0], axis) {
        None => {
            return None;
        },
        Some(f) => f,
    };
    proof {
        lemma_project_wf(pos, verts@[0], axis);
    }
    let mut mn = first;
    let mut mx = first;
    let mut i: usize = 0;
    while i < verts.len()
        invariant
            0 <= i <= verts@.len(),
            verts@.len() >= 1,
            vec2_wf(pos),
            vec2_wf(axis),
            forall|k: int| 0 <= k < verts@.len() ==> vec2_wf(#[trigger] verts@[k]),
            rat_wf(mn),
            rat_wf(mx),
            proj_interval_from(pos, verts@, axis, i as int, mn, mx) == proj_interval(
                pos,
                verts@,
                axis,
            ),
        decreases verts@.len() - i,
    {
        match project(pos, verts[i], axis) {
            None => {
                return None;
            },
            Some(p) => {
                proof {
                    lemma_project_wf(pos, verts@[i as int], axis);
                }
                let lower = p.lt(mn);
                let higher = mx.lt(p);
                if lower {
                    mn = p;
                }
                if higher {
                    mx = p;
                }
            },
        }
        i += 1;
    }
    Some((mn, mx))
}

fn penetration(mn1: Rat, mx1: Rat, mn2: Rat, mx2: Rat) -> (r: AxisOutcome)
    requires
        rat_wf(mn1),
        rat_wf(mx1),
        rat_wf(mn2),
        rat_wf(mx2),
        rat_le(mn1, mx1),
        rat_le(mn2, mx2),
    ensures
        r == axis_penetration(mn1, mx1, mn2, mx2),
{
    if mx1.le(mn2) || mx2.le(mn1) {
        AxisOutcome::Separated
    } else if mn2.le(mn1) && mn1.le(mx2) && mn2.le(mx1) && mx1.le(mx2) {
        match (mn2.checked_sub(mx1), mx2.checked_sub(mn1)) {
            (Some(left), Some(right)) => {
                proof {
                    lemma_sub_wf(mn2, mx1);
                    lemma_sub_wf(mx2, mn1);
                }
                AxisOutcome::Candidate(
                    if left.abs_val().le(right) {
                        left
                    } else {
                        right
                    },
                )
            },
            _ => AxisOutcome::OutOfRange,
        }
    } else if mx2.le(mx1) && mn1.le(mx2) && mn1.le(mn2) && mn2.le(mx1) {
        match (mn1.checked_sub(mx2), mx1.checked_sub(mn2)) {
            (Some(left), Some(right)) => {
                proof {
                    lemma_sub_wf(mn1, mx2);
                    lemma_sub_wf(mx1, mn2);
                }
                AxisOutcome::Candidate(
                    if left.abs_val().le(right) {
                        left
                    } else {
                        right
                    },
                )
            },
            _ => AxisOutcome::OutOfRange,
        }
    } else if mx1.le(mx2) && mn2.le(mx1) {
        match mn2.checked_sub(mx1) {
            Some(d) => AxisOutcome::Candidate(d),
            None => AxisOutcome::OutOfRange,
        }
    } else if mn1.le(mx2) && mn2.le(mn1) {
        match mx2.checked_sub(mn1) {
            Some(d) => AxisOutcome::Candidate(d),
            None => AxisOutcome::OutOfRange,
        }
    } else {
        // overlapping ordered intervals always fall under a case above
        proof {
            lemma_axis_cases_cover(mn1, mx1, mn2, mx2);
            assert(false);
        }
        AxisOutcome::OutOfRange
    }
}

fn magnitude_sq(d: Rat, axis: Vec2r) -> (r: Option<Rat>)
    requires
        rat_wf(d),
        vec2_wf(axis),
    ensures
        r == mag_sq(d, axis),
{
    match d.checked_mul(d) {
        None => None,
        Some(d2) => {
            proof {
                lemma_rat_mul_exact(d, d);
            }
            match axis.dot(axis) {
                None => None,
                Some(m2) => {
                    proof {
                        lemma_dot_wf(axis, axis);
                    }
                    if m2.is_zero() {
                        None
                    } else {
                        d2.checked_div(m2)
                    }
                },
            }
        },
    }
}

fn translation(d: Rat, axis: Vec2r) -> (r: Option<Vec2r>)
    requires
        rat_wf(d),
        vec2_wf(axis),
    ensures
        r == mtv_from(d, axis),
{
    match axis.dot(axis) {
        None => None,
        Some(m2) => {
            proof {
                lemma_dot_wf(axis, axis);
            }
            if m2.is_zero() {
                None
            } else {
                match d.checked_mul(axis.x) {
                    None => None,
                    Some(nx) => {
                        proof {
                            lemma_rat_mul_exact(d, axis.x);
                        }
                        match d.checked_mul(axis.y) {
                            None => None,
                            Some(ny) => {
                                proof {
                                    lemma_rat_mul_exact(d, axis.y);
                                }
                                match nx.checked_div(m2) {
                                    None => None,
                                    Some(x) => match ny.checked_div(m2) {
                                        None => None,
                                        Some(y) => Some(Vec2r { x, y }),
                                    },
                                }
                            },
                        }
                    },
                }
            }
        },
    }
}

/// The SAT test between `c1` at `p1` and `c2` at `p2`, ignoring trigger
/// flags: pure geometry.
pub fn sat_test(p1: Vec2r, c1: &Polygon2D, p2: Vec2r, c2: &Polygon2D) -> (r: PairResult)
    requires
        vec2_wf(p1),
        vec2_wf(p2),
        poly_wf(*c1),
        poly_wf(*c2),
    ensures
        r == sat_pair(p1, *c1, p2, *c2),
{
    let ghost gaxes = c1.normals@ + c2.normals@;
    let mut axes: Vec<Vec2r> = Vec::new();
    let mut i: usize = 0;
    while i < c1.normals.len()
        invariant
            0 <= i <= c1.normals@.len(),
            axes@ == c1.normals@.subrange(0, i as int),
        decreases c1.normals@.len() - i,
    {
        axes.push(c1.normals[i]);
        proof {
            assert(axes@ =~= c1.normals@.subrange(0, i + 1));
        }
        i += 1;
    }
    let mut j: usize = 0;
    while j < c2.normals.len()
        invariant
            0 <= j <= c2.normals@.len(),
            axes@ == c1.normals@ + c2.normals@.subrange(0, j as int),
        decreases c2.normals@.len() - j,
    {
        axes.push(c2.normals[j]);
        proof {
            assert(axes@ =~= c1.normals@ + c2.normals@.subrange(0, j + 1));
        }
        j += 1;
    }
    proof {
        assert(c1.normals@.subrange(0, c1.normals@.len() as int) =~= c1.normals@);
        assert(c2.normals@.subrange(0, c2.normals@.len() as int) =~= c2.normals@);
        assert(axes@ =~= gaxes);
    }
    let mut best: Option<(Rat, Vec2r, Rat)> = None;
    let mut k: usize = 0;
    while k < axes.len()
        invariant
            0 <= k <= axes@.len(),
            axes@ == gaxes,
            vec2_wf(p1),
            vec2_wf(p2),
            poly_wf(*c1),
            poly_wf(*c2),
            forall|m: int| 0 <= m < gaxes.len() ==> vec2_wf(#[trigger] gaxes[m]),
            best matches Some(b) ==> rat_wf(b.0) && vec2_wf(b.1) && rat_wf(b.2),
            sat_from(p1, c1.verts@, p2, c2.verts@, gaxes, k as int, best) == sat_pair(
                p1,
                *c1,
                p2,
                *c2,
            ),
        decreases axes@.len() - k,
    {
        let axis = axes[k];
        let i1 = match interval(p1, &c1.verts, axis) {
            None => {
                return PairResult::OutOfRange;
            },
            Some(b) => b,
        };
        let i2 = match interval(p2, &c2.verts, axis) {
            None => {
                return PairResult::OutOfRange;
            },
            Some(b) => b,
        };
        proof {
            lemma_interval_wf_for(p1, c1.verts@, axis);
            lemma_interval_wf_for(p2, c2.verts@, axis);
            lemma_proj_interval_ordered(p1, c1.verts@, axis);
            lemma_proj_interval_ordered(p2, c2.verts@, axis);
        }
        match penetration(i1.0, i1.1, i2.0, i2.1) {
            AxisOutcome::Separated => {
                return PairResult::NoOverlap;
            },
            AxisOutcome::OutOfRange => {
                return PairResult::OutOfRange;
            },
            AxisOutcome::Candidate(d) => {
                proof {
                    lemma_penetration_wf(i1.0, i1.1, i2.0, i2.1);
                }
                match magnitude_sq(d, axis) {
                    None => {
                        return PairResult::OutOfRange;
                    },
                    Some(q) => {
                        proof {
                            lemma_mag_sq_wf(d, axis);
                        }
                        best = match best {
                            None => Some((d, axis, q)),
                            Some((bd, baxis, bq)) => {
                                if q.le(bq) {
                                    Some((d, axis, q))
                                } else {
                                    Some((bd, baxis, bq))
                                }
                            },
                        };
                    },
                }
            },
        }
        k += 1;
    }
    match best {
        None => PairResult::OutOfRange,
        Some((d, axis, q)) => match translation(d, axis) {
            None => PairResult::OutOfRange,
            Some(v) => PairResult::Overlap(v),
        },
    }
}

/// The pairwise test as move resolution uses it: a trigger obstacle `c2`
/// reports no overlap without being tested.
pub fn test_pair(p1: Vec2r, c1: &Polygon2D, p2: Vec2r, c2: &Polygon2D) -> (r: PairResult)
    requires
        vec2_wf(p1),
        vec2_wf(p2),
        poly_wf(*c1),
        poly_wf(*c2),
    ensures
        r == check_pair(p1, *c1, p2, *c2),
{
    if c2.is_trigger {
        PairResult::NoOverlap
    } else {
        sat_test(p1, c1, p2, c2)
    }
}

/// Interval bounds of a projection that came out are well formed, for
/// arbitrary well-formed vertex lists.
pub proof fn lemma_interval_wf_for(pos: Vec2r, verts: Seq<Vec2r>, axis: Vec2r)
    requires
        vec2_wf(pos),
        vec2_wf(axis),
        verts.len() >= 1,
        forall|k: int| 0 <= k < verts.len() ==> vec2_wf(#[trigger] verts[k]),
        proj_interval(pos, verts, axis) is Some,
    ensures
        proj_interval(pos, verts, axis) matches Some(b) ==> rat_wf(b.0) && rat_wf(b.1),
{
    if let Some(f) = project_vertex(pos, verts[0], axis) {
        lemma_project_wf(pos, verts[0], axis);
        lemma_interval_from_wf(pos, verts, axis, 0, f, f);
    }
}

} // verus!
