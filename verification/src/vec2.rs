//! Exact 2D points and vectors over rational scalars.

use vstd::prelude::*;
use crate::rat::{Rat, rat_wf, rat_add, rat_sub, rat_mul, rat_neg, rat_eq};

verus! {

/// A 2D point or displacement with exact rational components.
#[derive(Clone, Copy, Debug, PartialEq, Eq, Structural)]
pub struct Vec2r {
    pub x: Rat,
    pub y: Rat,
}

pub open spec fn vec2_wf(v: Vec2r) -> bool {
    &&& rat_wf(v.x)
    &&& rat_wf(v.y)
}

/// Componentwise exact sum; `None` when a component leaves the machine range.
pub open spec fn vec2_add(a: Vec2r, b: Vec2r) -> Option<Vec2r> {
    match rat_add(a.x, b.x) {
        Some(x) => match rat_add(a.y, b.y) {
            Some(y) => Some(Vec2r { x, y }),
            None => None,
        },
        None => None,
    }
}

/// Componentwise exact difference.
pub open spec fn vec2_sub(a: Vec2r, b: Vec2r) -> Option<Vec2r> {
    match rat_sub(a.x, b.x) {
        Some(x) => match rat_sub(a.y, b.y) {
            Some(y) => Some(Vec2r { x, y }),
            None => None,
        },
        None => None,
    }
}

/// The perpendicular of `(x, y)`: `(-y, x)`; always exact.
pub open spec fn vec2_perp(a: Vec2r) -> Vec2r {
    Vec2r { x: rat_neg(a.y), y: a.x }
}

/// Exact dot product `a.x * b.x + a.y * b.y`.
pub open spec fn vec2_dot(a: Vec2r, b: Vec2r) -> Option<Rat> {
    match rat_mul(a.x, b.x) {
        Some(px) => match rat_mul(a.y, b.y) {
            Some(py) => rat_add(px, py),
            None => None,
        },
        None => None,
    }
}

/// Both components are the value zero.
pub open spec fn vec2_is_zero(a: Vec2r) -> bool {
    a.x.num == 0 && a.y.num == 0
}

/// Componentwise value equality.
pub open spec fn vec2_eq(a: Vec2r, b: Vec2r) -> bool {
    rat_eq(a.x, b.x) && rat_eq(a.y, b.y)
}

impl Vec2r {
    /// The point `(x, y)`.
    pub fn new(x: Rat, y: Rat) -> (r: Vec2r)
        ensures
            r == (Vec2r { x, y }),
    {
        Vec2r { x, y }
    }

    /// The point with integer coordinates `(x, y)`.
    pub fn from_ints(x: i32, y: i32) -> (r: Vec2r)
        ensures
            r == (Vec2r { x: Rat { num: x as i64, den: 1i64 }, y: Rat { num: y as i64, den: 1i64 } }),
            vec2_wf(r),
    {
        Vec2r { x: Rat::from_int(x), y: Rat::from_int(y) }
    }

    /// Componentwise exact sum.
    pub fn checked_add(self, other: Vec2r) -> (r: Option<Vec2r>)
        requires
            vec2_wf(self),
            vec2_wf(other),
        ensures
            r == vec2_add(self, other),
    {
        match self.x.checked_add(other.x) {
            Some(x) => match self.y.checked_add(other.y) {
                Some(y) => Some(Vec2r { x, y }),
                None => None,
            },
            None => None,
        }
    }

    /// Componentwise exact difference.
    pub fn checked_sub(self, other: Vec2r) -> (r: Option<Vec2r>)
        requires
            vec2_wf(self),
            vec2_wf(other),
        ensures
            r == vec2_sub(self, other),
    {
        match self.x.checked_sub(other.x) {
            Some(x) => match self.y.checked_sub(other.y) {
                Some(y) => Some(Vec2r { x, y }),
                None => None,
            },
            None => None,
        }
    }

    /// The perpendicular `(-y, x)`; always exact.
    pub fn perp(self) -> (r: Vec2r)
        requires
            vec2_wf(self),
        ensures
            r == vec2_perp(self),
            vec2_wf(r),
    {
        Vec2r { x: self.y.neg(), y: self.x }
    }

    /// Exact dot product.
    pub fn dot(self, other: Vec2r) -> (r: Option<Rat>)
        requires
            vec2_wf(self),
            vec2_wf(other),
        ensures
            r == vec2_dot(self, other),
    {
        match self.x.checked_mul(other.x) {
            Some(px) => match self.y.checked_mul(other.y) {
                Some(py) => {
                    proof {
                        crate::rat::lemma_rat_mul_exact(self.x, other.x);
                        crate::rat::lemma_rat_mul_exact(self.y, other.y);
                    }
                    px.checked_add(py)
                },
                None => None,
            },
            None => None,
        }
    }

    /// Whether both components are the value zero.
    pub fn is_zero(self) -> (r: bool)
        requires
            vec2_wf(self),
        ensures
            r == vec2_is_zero(self),
    {
        self.x.is_zero() && self.y.is_zero()
    }

    /// Componentwise value equality.
    pub fn eq_val(self, other: Vec2r) -> (r: bool)
        requires
            vec2_wf(self),
            vec2_wf(other),
        ensures
            r == vec2_eq(self, other),
    {
        self.x.eq_val(other.x) && self.y.eq_val(other.y)
    }
}

/// A componentwise sum that came out is well formed.
pub proof fn lemma_vec2_add_wf(a: Vec2r, b: Vec2r)
    requires
        vec2_wf(a),
        vec2_wf(b),
        vec2_add(a, b) matches Some(_),
    ensures
        vec2_add(a, b) matches Some(r) ==> vec2_wf(r),
{
    if let Some(r) = vec2_add(a, b) {
        crate::rat::lemma_rat_add_exact(a.x, b.x);
        crate::rat::lemma_rat_add_exact(a.y, b.y);
    }
}

/// A componentwise difference that came out is well formed.
pub proof fn lemma_vec2_sub_wf(a: Vec2r, b: Vec2r)
    requires
        vec2_wf(a),
        vec2_wf(b),
        vec2_sub(a, b) matches Some(_),
    ensures
        vec2_sub(a, b) matches Some(r) ==> vec2_wf(r),
{
    if let Some(r) = vec2_sub(a, b) {
        crate::rat::lemma_rat_add_exact(a.x, rat_neg(b.x));
        crate::rat::lemma_rat_add_exact(a.y, rat_neg(b.y));
    }
}

} // verus!
