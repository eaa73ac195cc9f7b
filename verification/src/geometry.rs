//! Integer-coordinate radius vectors and the angle between two of them, each
//! with an exact, overflow-safe total order computed from integer cross and
//! dot products only (no division, no floating point).
//!
//! Points are ordered angularly: the "bottom" half-plane (`y < 0`, or `y == 0
//! && x < 0`) precedes the "top" half, and within a half a point precedes
//! another exactly when their cross product `y * x' - x * y'` is positive.
//! Angles are ordered by the sign of their dot product first (acute before
//! right before obtuse), then by an exact comparison of `dot^2 / norm_prod_sq`
//! ratios, cross-multiplied through the 128-bit wide product.

use crate::bigints::wide_cmp;
use std::cmp::Ordering;
use vstd::prelude::*;

verus! {

/// Radius-vector from the origin, with its squared norm precomputed at
/// construction.
#[derive(Clone, Copy, PartialEq, Eq, Structural, Debug)]
pub struct Point {
    pub x: i64,
    pub y: i64,
    pub norm_sq: i64,
}

/// The angle between two radius-vectors, represented by its derived dot
/// product and the product of the two squared norms.
#[derive(Clone, Copy, PartialEq, Eq, Structural, Debug)]
pub struct Angle {
    pub v: Point,
    pub w: Point,
    pub dot_product: i64,
    pub norm_prod_sq: i64,
}

/// True when `p` lies in the half-plane that the angular order puts first.
pub open spec fn spec_bottom(p: Point) -> bool {
    p.y < 0 || (p.y == 0 && p.x < 0)
}

/// Cross product `p.y * q.x - p.x * q.y`; its sign orders two points of the
/// same half-plane.
pub open spec fn spec_cross(p: Point, q: Point) -> int {
    p.y * q.x - p.x * q.y
}

/// Dot product of the two radius-vectors.
pub open spec fn spec_dot(p: Point, q: Point) -> int {
    p.x * q.x + p.y * q.y
}

/// The strict angular order on points: bottom half first, then by positive
/// cross product within a half.
pub open spec fn point_lt(p: Point, q: Point) -> bool {
    if spec_bottom(p) != spec_bottom(q) {
        spec_bottom(p)
    } else {
        spec_cross(p, q) > 0
    }
}

/// Order-equality of points: same half-plane and collinear with the origin.
/// Distinct points on one ray through the origin are order-equal.
pub open spec fn point_order_eq(p: Point, q: Point) -> bool {
    spec_bottom(p) == spec_bottom(q) && spec_cross(p, q) == 0
}

/// Sign of an integer: -1, 0 or 1.
pub open spec fn spec_sign(v: int) -> int {
    if v < 0 {
        -1
    } else if v == 0 {
        0
    } else {
        1
    }
}

/// The strict order on angles: a larger dot-product sign means a smaller
/// angle; on equal signs the squared-cosine ratios `dot^2 / norm_prod_sq` are
/// compared by cross-multiplication, with the comparison direction flipped
/// for obtuse angles.
pub open spec fn angle_lt(a: Angle, b: Angle) -> bool {
    if spec_sign(a.dot_product as int) != spec_sign(b.dot_product as int) {
        spec_sign(a.dot_product as int) > spec_sign(b.dot_product as int)
    } else if a.dot_product < 0 {
        b.norm_prod_sq * (a.dot_product * a.dot_product) < a.norm_prod_sq * (b.dot_product
            * b.dot_product)
    } else {
        a.norm_prod_sq * (b.dot_product * b.dot_product) < b.norm_prod_sq * (a.dot_product
            * a.dot_product)
    }
}

/// Order-equality of angles: equal dot-product signs and equal
/// cross-multiplied squared terms, regardless of the vectors' lengths.
pub open spec fn angle_order_eq(a: Angle, b: Angle) -> bool {
    spec_sign(a.dot_product as int) == spec_sign(b.dot_product as int) && a.norm_prod_sq
        * (b.dot_product * b.dot_product) == b.norm_prod_sq * (a.dot_product * a.dot_product)
}

/// Lagrange's identity in two dimensions: `dot^2 + cross^2 == |p|^2 * |q|^2`.
proof fn lemma_lagrange(x1: int, y1: int, x2: int, y2: int)
    ensures
        (x1 * x2 + y1 * y2) * (x1 * x2 + y1 * y2) + (y1 * x2 - x1 * y2) * (y1 * x2 - x1 * y2) == (
        x1 * x1 + y1 * y1) * (x2 * x2 + y2 * y2),
{
    let a = x1 * x2;
    let b = y1 * y2;
    let c = y1 * x2;
    let d = x1 * y2;
    assert((a + b) * (a + b) == a * a + 2 * (a * b) + b * b) by (nonlinear_arith);
    assert((c - d) * (c - d) == c * c - 2 * (c * d) + d * d) by (nonlinear_arith);
    assert(a * b == c * d) by (nonlinear_arith)
        requires
            a == x1 * x2,
            b == y1 * y2,
            c == y1 * x2,
            d == x1 * y2,
    ;
    assert(a * a == (x1 * x1) * (x2 * x2)) by (nonlinear_arith)
        requires
            a == x1 * x2,
    ;
    assert(b * b == (y1 * y1) * (y2 * y2)) by (nonlinear_arith)
        requires
            b == y1 * y2,
    ;
    assert(c * c == (y1 * y1) * (x2 * x2)) by (nonlinear_arith)
        requires
            c == y1 * x2,
    ;
    assert(d * d == (x1 * x1) * (y2 * y2)) by (nonlinear_arith)
        requires
            d == x1 * y2,
    ;
    let p1 = x1 * x1;
    let q1 = y1 * y1;
    let p2 = x2 * x2;
    let q2 = y2 * y2;
    assert((p1 + q1) * (p2 + q2) == p1 * p2 + p1 * q2 + q1 * p2 + q1 * q2) by (nonlinear_arith);
}

proof fn lemma_abs_le(c: int, m: int)
    by (nonlinear_arith)
    requires
        c * c <= m * m,
        0 <= m,
    ensures
        -m <= c <= m,
{
}

proof fn lemma_mul_le(a: int, b: int, c: int, d: int)
    by (nonlinear_arith)
    requires
        0 <= a <= b,
        0 <= c <= d,
    ensures
        a * c <= b * d,
{
}

proof fn lemma_sq_of_prod(a: int, b: int)
    by (nonlinear_arith)
    ensures
        (a * b) * (a * b) == (a * a) * (b * b),
        0 <= a * a,
{
}

/// For two well-formed points, every product the comparators form — the four
/// coordinate products, the dot product and the cross product — lies within
/// `[-i64::MAX, i64::MAX]`, and Lagrange's identity bounds the dot and cross
/// products by the product of the squared norms.
pub proof fn lemma_point_products_fit(p: Point, q: Point)
    requires
        p.wf(),
        q.wf(),
    ensures
        spec_dot(p, q) * spec_dot(p, q) + spec_cross(p, q) * spec_cross(p, q) == p.norm_sq
            * q.norm_sq,
        0 <= p.norm_sq * q.norm_sq <= i64::MAX * i64::MAX,
        0 <= spec_dot(p, q) * spec_dot(p, q) <= p.norm_sq * q.norm_sq,
        0 <= spec_cross(p, q) * spec_cross(p, q) <= p.norm_sq * q.norm_sq,
        -i64::MAX <= spec_dot(p, q) <= i64::MAX,
        -i64::MAX <= spec_cross(p, q) <= i64::MAX,
        -i64::MAX <= p.x * q.x <= i64::MAX,
        -i64::MAX <= p.y * q.y <= i64::MAX,
        -i64::MAX <= p.y * q.x <= i64::MAX,
        -i64::MAX <= p.x * q.y <= i64::MAX,
{
    let m = i64::MAX as int;
    assert(0 <= p.x * p.x && 0 <= p.y * p.y && 0 <= q.x * q.x && 0 <= q.y
        * q.y) by (nonlinear_arith);
    lemma_lagrange(p.x as int, p.y as int, q.x as int, q.y as int);
    assert(0 <= spec_dot(p, q) * spec_dot(p, q) && 0 <= spec_cross(p, q) * spec_cross(
        p,
        q,
    )) by (nonlinear_arith);
    lemma_sq_of_prod(p.x as int, p.y as int);
    lemma_sq_of_prod(q.x as int, q.y as int);
    lemma_mul_le(p.norm_sq as int, m, q.norm_sq as int, m);
    lemma_sq_of_prod(p.x as int, q.x as int);
    lemma_mul_le(p.x * p.x, p.norm_sq as int, q.x * q.x, q.norm_sq as int);
    lemma_abs_le(p.x * q.x, m);
    lemma_sq_of_prod(p.y as int, q.y as int);
    lemma_mul_le(p.y * p.y, p.norm_sq as int, q.y * q.y, q.norm_sq as int);
    lemma_abs_le(p.y * q.y, m);
    lemma_sq_of_prod(p.y as int, q.x as int);
    lemma_mul_le(p.y * p.y, p.norm_sq as int, q.x * q.x, q.norm_sq as int);
    lemma_abs_le(p.y * q.x, m);
    lemma_sq_of_prod(p.x as int, q.y as int);
    lemma_mul_le(p.x * p.x, p.norm_sq as int, q.y * q.y, q.norm_sq as int);
    lemma_abs_le(p.x * q.y, m);
    lemma_abs_le(spec_dot(p, q), m);
    lemma_abs_le(spec_cross(p, q), m);
}

/// The cross product is antisymmetric: `cross(p, q) == -cross(q, p)`.
pub proof fn lemma_cross_antisymmetric(p: Point, q: Point)
    by (nonlinear_arith)
    ensures
        spec_cross(p, q) + spec_cross(q, p) == 0,
{
}

impl Point {
    /// The squared norm stored in the point is exactly `x^2 + y^2`.
    pub open spec fn wf(self) -> bool {
        self.norm_sq == self.x * self.x + self.y * self.y
    }

    /// Constructs a point and precomputes its squared norm. The coordinates
    /// must be small enough for `x^2 + y^2` to fit in a signed 64-bit value;
    /// every comparison of well-formed points is then free of overflow.
    pub fn new(x: i64, y: i64) -> (p: Point)
        requires
            x * x + y * y <= i64::MAX,
        ensures
            p.x == x,
            p.y == y,
            p.wf(),
    {
        proof {
            assert(0 <= x * x && 0 <= y * y) by (nonlinear_arith);
        }
        Point { x, y, norm_sq: x * x + y * y }
    }

    /// True when the point lies in the half-plane ordered first: `y < 0`, or
    /// `y == 0 && x < 0`. The origin is classified as "top".
    pub fn bottom(&self) -> (r: bool)
        ensures
            r == spec_bottom(*self),
    {
        self.y < 0 || (self.y == 0 && self.x < 0)
    }

    /// Exact dot product of two well-formed points.
    pub fn dot(&self, rhs: &Point) -> (r: i64)
        requires
            self.wf(),
            rhs.wf(),
        ensures
            r == spec_dot(*self, *rhs),
    {
        proof {
            lemma_point_products_fit(*self, *rhs);
        }
        self.x * rhs.x + self.y * rhs.y
    }

    /// Exact cross product of two well-formed points.
    pub fn cross(&self, rhs: &Point) -> (r: i64)
        requires
            self.wf(),
            rhs.wf(),
        ensures
            r == spec_cross(*self, *rhs),
    {
        proof {
            lemma_point_products_fit(*self, *rhs);
        }
        self.y * rhs.x - self.x * rhs.y
    }

    /// Order-equality test: same half-plane and collinear with the origin.
    pub fn eq(&self, other: &Point) -> (r: bool)
        requires
            self.wf(),
            other.wf(),
        ensures
            r == point_order_eq(*self, *other),
    {
        self.bottom() == other.bottom() && self.cross(other) == 0
    }

    /// Strict angular order test.
    pub fn lt(&self, other: &Point) -> (r: bool)
        requires
            self.wf(),
            other.wf(),
        ensures
            r == point_lt(*self, *other),
    {
        let sb = self.bottom();
        let ob = other.bottom();
        if sb != ob {
            sb
        } else {
            self.cross(other) > 0
        }
    }

    /// Three-way angular comparison: `Less` exactly when `self` precedes
    /// `other`, `Equal` exactly on order-equal points, `Greater` exactly when
    /// `other` precedes `self`.
    pub fn cmp(&self, other: &Point) -> (r: Ordering)
        requires
            self.wf(),
            other.wf(),
        ensures
            (r == Ordering::Less) == point_lt(*self, *other),
            (r == Ordering::Equal) == point_order_eq(*self, *other),
            (r == Ordering::Greater) == point_lt(*other, *self),
    {
        proof {
            lemma_cross_antisymmetric(*self, *other);
        }
        let sb = self.bottom();
        let ob = other.bottom();
        if sb != ob {
            if sb {
                Ordering::Less
            } else {
                Ordering::Greater
            }
        } else {
            let c = self.cross(other);
            if c > 0 {
                Ordering::Less
            } else if c < 0 {
                Ordering::Greater
            } else {
                Ordering::Equal
            }
        }
    }

    /// The angular order is total, so this always returns `Some` of the
    /// three-way comparison.
    pub fn partial_cmp(&self, other: &Point) -> (r: Option<Ordering>)
        requires
            self.wf(),
            other.wf(),
        ensures
            (r == Some(Ordering::Less)) == point_lt(*self, *other),
            (r == Some(Ordering::Equal)) == point_order_eq(*self, *other),
            (r == Some(Ordering::Greater)) == point_lt(*other, *self),
            r is Some,
    {
        Some(self.cmp(other))
    }
}

impl Angle {
    /// The stored fields are exactly the dot product of `v` and `w` and the
    /// product of their squared norms.
    pub open spec fn wf(self) -> bool {
        &&& self.v.wf()
        &&& self.w.wf()
        &&& self.dot_product == spec_dot(self.v, self.w)
        &&& self.norm_prod_sq == self.v.norm_sq * self.w.norm_sq
    }

    /// Constructs the angle between two well-formed points. The product of
    /// the squared norms must fit in a signed 64-bit value; the squared dot
    /// product is then bounded by it (Cauchy-Schwarz) and every comparison of
    /// well-formed angles is free of overflow.
    pub fn new(v: &Point, w: &Point) -> (a: Angle)
        requires
            v.wf(),
            w.wf(),
            v.norm_sq * w.norm_sq <= i64::MAX,
        ensures
            a.v == *v,
            a.w == *w,
            a.wf(),
    {
        proof {
            lemma_point_products_fit(*v, *w);
        }
        Angle { v: *v, w: *w, dot_product: v.dot(w), norm_prod_sq: v.norm_sq * w.norm_sq }
    }

    /// Order-equality test: equal dot-product signs and equal
    /// cross-multiplied squared terms.
    pub fn eq(&self, other: &Angle) -> (r: bool)
        requires
            self.wf(),
            other.wf(),
        ensures
            r == angle_order_eq(*self, *other),
    {
        matches!(self.cmp(other), Ordering::Equal)
    }

    /// Strict order test: `self` denotes a strictly smaller angle magnitude.
    pub fn lt(&self, other: &Angle) -> (r: bool)
        requires
            self.wf(),
            other.wf(),
        ensures
            r == angle_lt(*self, *other),
    {
        matches!(self.cmp(other), Ordering::Less)
    }

    /// Three-way comparison of angle magnitudes: sign of the dot product
    /// first (acute before right before obtuse), then the exact 128-bit
    /// comparison of `dot^2 * other_norm_prod` terms, flipped in the obtuse
    /// bucket.
    pub fn cmp(&self, other: &Angle) -> (r: Ordering)
        requires
            self.wf(),
            other.wf(),
        ensures
            (r == Ordering::Less) == angle_lt(*self, *other),
            (r == Ordering::Equal) == angle_order_eq(*self, *other),
            (r == Ordering::Greater) == angle_lt(*other, *self),
    {
        let ss = sign64(self.dot_product);
        let os = sign64(other.dot_product);
        if ss != os {
            if ss > os {
                Ordering::Less
            } else {
                Ordering::Greater
            }
        } else {
            proof {
                lemma_point_products_fit(self.v, self.w);
                lemma_point_products_fit(other.v, other.w);
            }
            let sq_s: i64 = self.dot_product * self.dot_product;
            let sq_o: i64 = other.dot_product * other.dot_product;
            if ss == -1 {
                wide_cmp(
                    other.norm_prod_sq as u64,
                    sq_s as u64,
                    self.norm_prod_sq as u64,
                    sq_o as u64,
                )
            } else {
                wide_cmp(
                    self.norm_prod_sq as u64,
                    sq_o as u64,
                    other.norm_prod_sq as u64,
                    sq_s as u64,
                )
            }
        }
    }

    /// The angle order is total, so this always returns `Some` of the
    /// three-way comparison.
    pub fn partial_cmp(&self, other: &Angle) -> (r: Option<Ordering>)
        requires
            self.wf(),
            other.wf(),
        ensures
            (r == Some(Ordering::Less)) == angle_lt(*self, *other),
            (r == Some(Ordering::Equal)) == angle_order_eq(*self, *other),
            (r == Some(Ordering::Greater)) == angle_lt(*other, *self),
            r is Some,
    {
        Some(self.cmp(other))
    }
}

/// The strict angular order on points is irreflexive: no point precedes
/// itself.
pub proof fn lemma_point_lt_irreflexive(p: Point)
    ensures
        !point_lt(p, p),
{
    assert(p.y * p.x - p.x * p.y == 0) by (nonlinear_arith);
}

/// The strict angular order on points is asymmetric: two points never each
/// precede the other.
pub proof fn lemma_point_lt_asymmetric(p: Point, q: Point)
    ensures
        !(point_lt(p, q) && point_lt(q, p)),
{
    lemma_cross_antisymmetric(p, q);
}

/// Linear dependence of three plane vectors, expressed through their pairwise
/// cross products: `cross(p,q) * r + cross(q,r) * p == cross(p,r) * q`,
/// componentwise.
proof fn lemma_cross_balance(p: Point, q: Point, r: Point)
    ensures
        spec_cross(p, q) * r.y + spec_cross(q, r) * p.y == spec_cross(p, r) * q.y,
        spec_cross(p, q) * r.x + spec_cross(q, r) * p.x == spec_cross(p, r) * q.x,
{
    assert((p.y * q.x - p.x * q.y) * r.y + (q.y * r.x - q.x * r.y) * p.y == (p.y * r.x - p.x * r.y)
        * q.y) by (nonlinear_arith);
    assert((p.y * q.x - p.x * q.y) * r.x + (q.y * r.x - q.x * r.y) * p.x == (p.y * r.x - p.x * r.y)
        * q.x) by (nonlinear_arith);
}

/// In the top half-plane, a point that strictly precedes another lies off the
/// positive x-axis: its `y` is strictly positive.
proof fn lemma_cross_pos_top(p: Point, q: Point)
    requires
        !spec_bottom(p),
        !spec_bottom(q),
        spec_cross(p, q) > 0,
    ensures
        p.y > 0,
{
    if p.y == 0 {
        assert(p.y * q.x == 0) by (nonlinear_arith)
            requires
                p.y == 0,
        ;
        assert(p.x * q.y >= 0) by (nonlinear_arith)
            requires
                p.x >= 0,
                q.y >= 0,
        ;
    }
}

/// In the bottom half-plane, a point that strictly precedes another lies off
/// the negative x-axis: its `y` is strictly negative.
proof fn lemma_cross_pos_bottom(p: Point, q: Point)
    requires
        spec_bottom(p),
        spec_bottom(q),
        spec_cross(p, q) > 0,
    ensures
        p.y < 0,
{
    if p.y == 0 {
        assert(p.y * q.x == 0) by (nonlinear_arith)
            requires
                p.y == 0,
        ;
        assert(p.x * q.y >= 0) by (nonlinear_arith)
            requires
                p.x < 0,
                q.y <= 0,
        ;
    }
}

/// The strict angular order on points is transitive, for all points: if `p`
/// precedes `q` and `q` precedes `r`, then `p` precedes `r`.
pub proof fn lemma_point_lt_transitive(p: Point, q: Point, r: Point)
    requires
        point_lt(p, q),
        point_lt(q, r),
    ensures
        point_lt(p, r),
{
    if spec_bottom(p) == spec_bottom(q) && spec_bottom(q) == spec_bottom(r) {
        lemma_cross_balance(p, q, r);
        let cpq = spec_cross(p, q);
        let cqr = spec_cross(q, r);
        let cpr = spec_cross(p, r);
        if !spec_bottom(p) {
            lemma_cross_pos_top(p, q);
            lemma_cross_pos_top(q, r);
            assert(cpq * r.y >= 0) by (nonlinear_arith)
                requires
                    cpq > 0,
                    r.y >= 0,
            ;
            assert(cqr * p.y > 0) by (nonlinear_arith)
                requires
                    cqr > 0,
                    p.y > 0,
            ;
            assert(cpr > 0) by (nonlinear_arith)
                requires
                    cpr * q.y > 0,
                    q.y > 0,
            ;
        } else {
            lemma_cross_pos_bottom(p, q);
            lemma_cross_pos_bottom(q, r);
            assert(cpq * r.y <= 0) by (nonlinear_arith)
                requires
                    cpq > 0,
                    r.y <= 0,
            ;
            assert(cqr * p.y < 0) by (nonlinear_arith)
                requires
                    cqr > 0,
                    p.y < 0,
            ;
            assert(cpr > 0) by (nonlinear_arith)
                requires
                    cpr * q.y < 0,
                    q.y < 0,
            ;
        }
    }
}

/// The non-strict angular order (`q` does not strictly precede `p`) is
/// transitive over points that are not the origin. The origin is excluded
/// because it is order-equal to every point, which breaks transitivity of
/// order-equality.
pub proof fn lemma_point_le_transitive(p: Point, q: Point, r: Point)
    requires
        !(q.x == 0 && q.y == 0),
        !(r.x == 0 && r.y == 0),
        !point_lt(q, p),
        !point_lt(r, q),
    ensures
        !point_lt(r, p),
{
    lemma_cross_antisymmetric(p, q);
    lemma_cross_antisymmetric(q, r);
    lemma_cross_antisymmetric(p, r);
    if point_lt(r, p) {
        if spec_bottom(r) == spec_bottom(p) && spec_bottom(p) == spec_bottom(q) {
            lemma_cross_balance(p, q, r);
            let cpq = spec_cross(p, q);
            let cqr = spec_cross(q, r);
            let cpr = spec_cross(p, r);
            if !spec_bottom(p) {
                assert(cpq * r.y >= 0) by (nonlinear_arith)
                    requires
                        cpq >= 0,
                        r.y >= 0,
                ;
                assert(cqr * p.y >= 0) by (nonlinear_arith)
                    requires
                        cqr >= 0,
                        p.y >= 0,
                ;
                if q.y > 0 {
                    assert(cpr >= 0) by (nonlinear_arith)
                        requires
                            cpr * q.y >= 0,
                            q.y > 0,
                    ;
                } else {
                    assert(q.y * r.x == 0) by (nonlinear_arith)
                        requires
                            q.y == 0,
                    ;
                    assert(r.y <= 0) by (nonlinear_arith)
                        requires
                            q.x * r.y <= 0,
                            q.x > 0,
                    ;
                    assert(p.x * r.y == 0) by (nonlinear_arith)
                        requires
                            r.y == 0,
                    ;
                    assert(cpr >= 0) by (nonlinear_arith)
                        requires
                            cpr == p.y * r.x,
                            p.y >= 0,
                            r.x > 0,
                    ;
                }
            } else {
                assert(cpq * r.y <= 0) by (nonlinear_arith)
                    requires
                        cpq >= 0,
                        r.y <= 0,
                ;
                assert(cqr * p.y <= 0) by (nonlinear_arith)
                    requires
                        cqr >= 0,
                        p.y <= 0,
                ;
                if q.y < 0 {
                    assert(cpr >= 0) by (nonlinear_arith)
                        requires
                            cpr * q.y <= 0,
                            q.y < 0,
                    ;
                } else {
                    assert(q.y * r.x == 0) by (nonlinear_arith)
                        requires
                            q.y == 0,
                    ;
                    assert(r.y >= 0) by (nonlinear_arith)
                        requires
                            q.x * r.y <= 0,
                            q.x < 0,
                    ;
                    assert(p.x * r.y == 0) by (nonlinear_arith)
                        requires
                            r.y == 0,
                    ;
                    assert(cpr >= 0) by (nonlinear_arith)
                        requires
                            cpr == p.y * r.x,
                            p.y <= 0,
                            r.x < 0,
                    ;
                }
            }
        }
    }
}

/// The non-strict order on angles is transitive over angles whose
/// `norm_prod_sq` is strictly positive, that is, angles formed from two
/// non-origin points.
pub proof fn lemma_angle_le_transitive(a: Angle, b: Angle, c: Angle)
    requires
        a.norm_prod_sq >= 0,
        b.norm_prod_sq > 0,
        c.norm_prod_sq >= 0,
        !angle_lt(b, a),
        !angle_lt(c, b),
    ensures
        !angle_lt(c, a),
{
    let sa = spec_sign(a.dot_product as int);
    let sb = spec_sign(b.dot_product as int);
    let sc = spec_sign(c.dot_product as int);
    if sc == sa {
        let na = a.norm_prod_sq as int;
        let nb = b.norm_prod_sq as int;
        let nc = c.norm_prod_sq as int;
        let xa = (a.dot_product * a.dot_product) as int;
        let xb = (b.dot_product * b.dot_product) as int;
        let xc = (c.dot_product * c.dot_product) as int;
        if a.dot_product < 0 {
            assert(nc * xa <= na * xc) by (nonlinear_arith)
                requires
                    nb * xa <= na * xb,
                    nc * xb <= nb * xc,
                    na >= 0,
                    nc >= 0,
                    nb > 0,
            ;
        } else {
            assert(na * xc <= nc * xa) by (nonlinear_arith)
                requires
                    na * xb <= nb * xa,
                    nb * xc <= nc * xb,
                    na >= 0,
                    nc >= 0,
                    nb > 0,
            ;
        }
    }
}

/// Angles are ordered by dot-product sign first: whenever `a`'s sign exceeds
/// `b`'s (acute before right before obtuse), `a` strictly precedes `b`,
/// whatever the norms on either side.
pub proof fn lemma_angle_sign_order(a: Angle, b: Angle)
    requires
        spec_sign(a.dot_product as int) > spec_sign(b.dot_product as int),
    ensures
        angle_lt(a, b),
        !angle_lt(b, a),
        !angle_order_eq(a, b),
{
}

/// Any two right angles (dot product zero) are order-equal, whatever the
/// norms of the vectors that form them.
pub proof fn lemma_right_angles_order_eq(a: Angle, b: Angle)
    requires
        a.dot_product == 0,
        b.dot_product == 0,
    ensures
        angle_order_eq(a, b),
        !angle_lt(a, b),
        !angle_lt(b, a),
{
    assert(a.norm_prod_sq * (b.dot_product * b.dot_product) == 0) by (nonlinear_arith)
        requires
            b.dot_product == 0,
    ;
    assert(b.norm_prod_sq * (a.dot_product * a.dot_product) == 0) by (nonlinear_arith)
        requires
            a.dot_product == 0,
    ;
}

/// The strict order on angles is irreflexive.
pub proof fn lemma_angle_lt_irreflexive(a: Angle)
    ensures
        !angle_lt(a, a),
{
}

/// The strict order on angles is asymmetric.
pub proof fn lemma_angle_lt_asymmetric(a: Angle, b: Angle)
    ensures
        !(angle_lt(a, b) && angle_lt(b, a)),
{
}

/// Sign of a signed 64-bit value as -1, 0 or 1.
fn sign64(v: i64) -> (r: i64)
    ensures
        r == spec_sign(v as int),
{
    if v < 0 {
        -1
    } else if v == 0 {
        0
    } else {
        1
    }
}

} // verus!
