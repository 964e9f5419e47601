//! Scalar clamping, the zoom-to-scale transfer function, and 2-D vectors
//! with length and normalization.

use vstd::prelude::*;
use vstd::arithmetic::div_mod::{
    lemma_div_pos_is_pos, lemma_fundamental_div_mod, lemma_mod_bound,
};
use crate::fixed::{
    ONE, isqrt, isqrt_spec, lemma_isqrt_spec_bracket, log2_approx, log2_approx_spec,
    lemma_log2_approx_monotone,
};

verus! {

/// Largest coordinate magnitude accepted by `length` and `normalize`;
/// keeps the sum of squared coordinates inside an `i64`.
pub const COORD_LIMIT: i64 = 2_000_000_000;

pub open spec fn lower_clamped(v: int, min: int) -> int {
    if v < min {
        min
    } else {
        v
    }
}

pub open spec fn upper_clamped(v: int, max: int) -> int {
    if v > max {
        max
    } else {
        v
    }
}

/// The lower bound is applied first, then the upper bound.
pub open spec fn clamped(v: int, min: int, max: int) -> int {
    upper_clamped(lower_clamped(v, min), max)
}

pub fn lower_clamp(value: &mut i64, min: i64)
    ensures
        *final(value) == lower_clamped(*old(value) as int, min as int),
{
    if *value < min {
        *value = min;
    }
}

pub fn upper_clamp(value: &mut i64, max: i64)
    ensures
        *final(value) == upper_clamped(*old(value) as int, max as int),
{
    if *value > max {
        *value = max;
    }
}

/// Clamp `value` into `[min, max]`, lower bound first; whenever
/// `min <= max` the result lies between the two bounds.
pub fn clamp(value: &mut i64, min: i64, max: i64)
    ensures
        *final(value) == clamped(*old(value) as int, min as int, max as int),
        min <= max ==> min <= *final(value) <= max,
{
    lower_clamp(value, min);
    upper_clamp(value, max);
}

/// Non-linear zoom-to-scale mapping: `log2(zoom + 1) + zoom` in fixed
/// point, log-dominated near zero and linear for large zoom levels.
pub open spec fn zoom_scale_spec(zoom: int) -> int {
    log2_approx_spec(zoom + ONE) + zoom
}

pub fn zoom_scale_function(zoom: i64) -> (r: i64)
    requires
        -(ONE as int) < zoom as int,
        zoom as int + 65 * (ONE as int) <= i64::MAX as int,
    ensures
        r == zoom_scale_spec(zoom as int),
{
    let l = log2_approx(zoom + ONE);
    l + zoom
}

/// The scale of a flat zoom level is zero: `log2(1) + 0 == 0`.
pub proof fn lemma_zoom_scale_zero()
    ensures
        zoom_scale_spec(0) == 0,
{
    assert(log2_approx_spec(0 + ONE) == ONE - ONE);
}

/// The zoom-to-scale mapping grows strictly over the whole domain above
/// the `-1` singularity.
pub proof fn lemma_zoom_scale_strictly_increasing(z1: int, z2: int)
    requires
        -(ONE as int) < z1 < z2,
    ensures
        zoom_scale_spec(z1) < zoom_scale_spec(z2),
{
    lemma_log2_approx_monotone(z1 + ONE, z2 + ONE);
}

/// Values measured by a Euclidean length.
pub trait HasLength: Sized {
    /// The length, rounded down to whole micro-units.
    spec fn len_spec(&self) -> int;

    /// The value scaled to unit length; the zero value is left unchanged.
    spec fn norm_spec(&self) -> Self;

    /// Small enough for the length computation to stay in range.
    spec fn bounded(&self) -> bool;

    fn length(&self) -> (r: i64)
        requires
            self.bounded(),
        ensures
            r == self.len_spec(),
    ;

    fn normalize(&self) -> (r: Self)
        requires
            self.bounded(),
        ensures
            r == self.norm_spec(),
    ;
}

#[derive(Clone, Copy, PartialEq, Eq, Structural, Debug)]
pub struct Vec2 {
    pub x: i64,
    pub y: i64,
}

pub open spec fn abs_val(a: int) -> int {
    if a >= 0 {
        a
    } else {
        -a
    }
}

/// Magnitude of one normalized component: the rounded-down square root of
/// `(c * ONE)^2 / n`, where `n` is the squared length of the vector. The
/// numerator is squared before the division, so the truncation error stays
/// within a couple of micro-units even for vectors far shorter than one
/// unit.
pub open spec fn norm_component_mag(c: int, n: int) -> int {
    let m = abs_val(c) * (ONE as int);
    isqrt_spec(((m * m) / n) as nat) as int
}

/// One normalized component with its sign restored.
pub open spec fn norm_component(c: int, n: int) -> int {
    if c >= 0 {
        norm_component_mag(c, n)
    } else {
        -norm_component_mag(c, n)
    }
}

impl HasLength for Vec2 {
    open spec fn len_spec(&self) -> int {
        isqrt_spec((self.x * self.x + self.y * self.y) as nat) as int
    }

    open spec fn norm_spec(&self) -> Vec2 {
        if self.x == 0 && self.y == 0 {
            *self
        } else {
            Vec2 {
                x: norm_component(self.x as int, self.x * self.x + self.y * self.y) as i64,
                y: norm_component(self.y as int, self.x * self.x + self.y * self.y) as i64,
            }
        }
    }

    open spec fn bounded(&self) -> bool {
        &&& -COORD_LIMIT <= self.x <= COORD_LIMIT
        &&& -COORD_LIMIT <= self.y <= COORD_LIMIT
    }

    fn length(&self) -> (r: i64) {
        proof {
            assert(0 <= self.x * self.x <= 4_000_000_000_000_000_000) by (nonlinear_arith)
                requires
                    -2_000_000_000 <= self.x <= 2_000_000_000,
            ;
            assert(0 <= self.y * self.y <= 4_000_000_000_000_000_000) by (nonlinear_arith)
                requires
                    -2_000_000_000 <= self.y <= 2_000_000_000,
            ;
        }
        let xx: i64 = self.x * self.x;
        let yy: i64 = self.y * self.y;
        let n: i64 = xx + yy;
        let root: u64 = isqrt(n as u64);
        proof {
            assert(root as int <= 3_000_000_000) by (nonlinear_arith)
                requires
                    root as int * root as int <= 8_000_000_000_000_000_000,
            ;
        }
        root as i64
    }

    fn normalize(&self) -> (r: Vec2) {
        if self.x == 0 && self.y == 0 {
            *self
        } else {
            proof {
                assert(0 <= self.x * self.x <= 4_000_000_000_000_000_000) by (nonlinear_arith)
                    requires
                        -2_000_000_000 <= self.x <= 2_000_000_000,
                ;
                assert(0 <= self.y * self.y <= 4_000_000_000_000_000_000) by (nonlinear_arith)
                    requires
                        -2_000_000_000 <= self.y <= 2_000_000_000,
                ;
                assert(self.x * self.x + self.y * self.y >= 1) by (nonlinear_arith)
                    requires
                        !(self.x == 0 && self.y == 0),
                ;
            }
            let xx: i64 = self.x * self.x;
            let yy: i64 = self.y * self.y;
            let n: i64 = xx + yy;
            let xa: i64 = if self.x >= 0 { self.x } else { -self.x };
            let ya: i64 = if self.y >= 0 { self.y } else { -self.y };
            let sx: i64 = xa * 1_000_000;
            let sy: i64 = ya * 1_000_000;
            proof {
                assert(xa as int * 1_000_000 == abs_val(self.x as int) * (ONE as int))
                    by (nonlinear_arith)
                    requires
                        (ONE as int) == 1_000_000,
                        xa == abs_val(self.x as int),
                ;
                assert(ya as int * 1_000_000 == abs_val(self.y as int) * (ONE as int))
                    by (nonlinear_arith)
                    requires
                        (ONE as int) == 1_000_000,
                        ya == abs_val(self.y as int),
                ;
                assert(0 <= sx as int * sx as int
                    <= 4_000_000_000_000_000_000_000_000_000_000) by (nonlinear_arith)
                    requires
                        0 <= sx <= 2_000_000_000_000_000,
                ;
                assert(0 <= sy as int * sy as int
                    <= 4_000_000_000_000_000_000_000_000_000_000) by (nonlinear_arith)
                    requires
                        0 <= sy <= 2_000_000_000_000_000,
                ;
            }
            let numx: u128 = (sx as u128) * (sx as u128);
            let numy: u128 = (sy as u128) * (sy as u128);
            let qx: u128 = numx / (n as u128);
            let qy: u128 = numy / (n as u128);
            proof {
                assert(sx as int * sx as int == xx as int * ((ONE as int) * (ONE as int)))
                    by (nonlinear_arith)
                    requires
                        sx as int == xa as int * 1_000_000,
                        xa as int == (if self.x >= 0 { self.x as int } else { -(self.x as int) }),
                        xx as int == self.x * self.x,
                        (ONE as int) == 1_000_000,
                ;
                assert(sy as int * sy as int == yy as int * ((ONE as int) * (ONE as int)))
                    by (nonlinear_arith)
                    requires
                        sy as int == ya as int * 1_000_000,
                        ya as int == (if self.y >= 0 { self.y as int } else { -(self.y as int) }),
                        yy as int == self.y * self.y,
                        (ONE as int) == 1_000_000,
                ;
                lemma_quotient_within_square(sx as int, xx as int, n as int);
                lemma_quotient_within_square(sy as int, yy as int, n as int);
            }
            let rx: u64 = isqrt(qx as u64);
            let ry: u64 = isqrt(qy as u64);
            proof {
                assert(rx as int <= 1_000_000) by (nonlinear_arith)
                    requires
                        rx as int * rx as int <= 1_000_000_000_000,
                ;
                assert(ry as int <= 1_000_000) by (nonlinear_arith)
                    requires
                        ry as int * ry as int <= 1_000_000_000_000,
                ;
                assert(rx as int == norm_component_mag(self.x as int, n as int));
                assert(ry as int == norm_component_mag(self.y as int, n as int));
            }
            let nx: i64 = if self.x >= 0 { rx as i64 } else { -(rx as i64) };
            let ny: i64 = if self.y >= 0 { ry as i64 } else { -(ry as i64) };
            proof {
                assert((Vec2 { x: nx, y: ny }) == self.norm_spec());
            }
            Vec2 { x: nx, y: ny }
        }
    }
}

/// The scaled squared numerator `s * s` divides by the squared length `n`
/// to a quotient of at most `ONE * ONE`, provided `s` is the coordinate
/// magnitude times `ONE` and the squared coordinate is at most `n`.
proof fn lemma_quotient_within_square(s: int, sq: int, n: int)
    requires
        s >= 0,
        n >= 1,
        s * s == sq * ((ONE as int) * (ONE as int)),
        sq <= n,
        sq >= 0,
    ensures
        0 <= (s * s) / n <= 1_000_000_000_000,
{
    lemma_div_pos_is_pos(s * s, n);
    lemma_fundamental_div_mod(s * s, n);
    lemma_mod_bound(s * s, n);
    assert((s * s) / n <= 1_000_000_000_000) by (nonlinear_arith)
        requires
            n * ((s * s) / n) <= s * s,
            s * s == sq * ((ONE as int) * (ONE as int)),
            (ONE as int) == 1_000_000,
            sq <= n,
            n >= 1,
    ;
}

/// Division and square-root brackets for one normalized component: its
/// magnitude `r` is at most one unit, `r^2 * n` never exceeds the scaled
/// squared coordinate, and `(r + 1)^2 * n` always exceeds it.
proof fn lemma_norm_component_facts(c: int, n: int)
    requires
        n >= 1,
        c * c <= n,
    ensures
        0 <= norm_component_mag(c, n) <= ONE as int,
        norm_component_mag(c, n) * norm_component_mag(c, n) * n
            <= (c * c) * ((ONE as int) * (ONE as int)),
        (norm_component_mag(c, n) + 1) * (norm_component_mag(c, n) + 1) * n
            > (c * c) * ((ONE as int) * (ONE as int)),
{
    let s = ONE as int;
    let ca = abs_val(c);
    assert(ca * ca == c * c) by (nonlinear_arith)
        requires
            ca == abs_val(c),
    ;
    let m = ca * s;
    assert(m * m == (ca * ca) * (s * s)) by (nonlinear_arith)
        requires
            m == ca * s,
    ;
    assert(m * m >= 0) by (nonlinear_arith);
    let q = (m * m) / n;
    lemma_div_pos_is_pos(m * m, n);
    lemma_fundamental_div_mod(m * m, n);
    lemma_mod_bound(m * m, n);
    assert(n * q <= m * m);
    assert(m * m < n * q + n);
    lemma_isqrt_spec_bracket(q as nat);
    let r = isqrt_spec(q as nat) as int;
    assert(q <= s * s) by (nonlinear_arith)
        requires
            n * q <= m * m,
            m * m == (ca * ca) * (s * s),
            ca * ca <= n,
            s * s >= 0,
            n >= 1,
    ;
    assert(r <= s) by (nonlinear_arith)
        requires
            r * r <= q,
            q <= s * s,
            s >= 1,
            r >= 0,
    ;
    assert(r * r * n <= (c * c) * (s * s)) by (nonlinear_arith)
        requires
            r * r <= q,
            n * q <= m * m,
            m * m == (ca * ca) * (s * s),
            ca * ca == c * c,
            n >= 1,
            r >= 0,
    ;
    assert((r + 1) * (r + 1) * n > (c * c) * (s * s)) by (nonlinear_arith)
        requires
            q < (r + 1) * (r + 1),
            m * m < n * q + n,
            m * m == (ca * ca) * (s * s),
            ca * ca == c * c,
            n >= 1,
    ;
}

/// Each component of a normalized vector lies within one unit.
pub proof fn lemma_norm_spec_bounds(v: Vec2)
    requires
        v.bounded(),
    ensures
        -(ONE as int) <= v.norm_spec().x <= ONE as int,
        -(ONE as int) <= v.norm_spec().y <= ONE as int,
{
    if v.x == 0 && v.y == 0 {
    } else {
        let n = v.x * v.x + v.y * v.y;
        assert(v.x * v.x >= 0 && v.y * v.y >= 0) by (nonlinear_arith);
        assert(n >= 1) by (nonlinear_arith)
            requires
                n == v.x * v.x + v.y * v.y,
                !(v.x == 0 && v.y == 0),
        ;
        lemma_norm_component_facts(v.x as int, n);
        lemma_norm_component_facts(v.y as int, n);
    }
}

/// Any bounded non-zero vector normalizes to a vector whose length is one
/// unit, up to three micro-units of truncation error.
pub proof fn lemma_normalize_unit_length(v: Vec2)
    requires
        v.bounded(),
        !(v.x == 0 && v.y == 0),
    ensures
        (ONE as int) - 3 <= v.norm_spec().len_spec() <= ONE as int,
{
    let s = ONE as int;
    let n = v.x * v.x + v.y * v.y;
    assert(v.x * v.x >= 0 && v.y * v.y >= 0) by (nonlinear_arith);
    assert(n >= 1) by (nonlinear_arith)
        requires
            n == v.x * v.x + v.y * v.y,
            !(v.x == 0 && v.y == 0),
    ;
    lemma_norm_component_facts(v.x as int, n);
    lemma_norm_component_facts(v.y as int, n);
    let rx = norm_component_mag(v.x as int, n);
    let ry = norm_component_mag(v.y as int, n);
    assert(v.norm_spec().x == norm_component(v.x as int, n));
    assert(v.norm_spec().y == norm_component(v.y as int, n));
    assert(v.norm_spec().x * v.norm_spec().x == rx * rx) by (nonlinear_arith)
        requires
            v.norm_spec().x == rx || v.norm_spec().x == -rx,
    ;
    assert(v.norm_spec().y * v.norm_spec().y == ry * ry) by (nonlinear_arith)
        requires
            v.norm_spec().y == ry || v.norm_spec().y == -ry,
    ;
    let bign = rx * rx + ry * ry;
    // Upper bound: the squared length never exceeds s * s.
    assert(bign * n <= n * (s * s)) by (nonlinear_arith)
        requires
            rx * rx * n <= (v.x * v.x) * (s * s),
            ry * ry * n <= (v.y * v.y) * (s * s),
            bign == rx * rx + ry * ry,
            n == v.x * v.x + v.y * v.y,
    ;
    assert(bign <= s * s) by (nonlinear_arith)
        requires
            bign * n <= n * (s * s),
            n >= 1,
    ;
    lemma_isqrt_spec_bracket(bign as nat);
    assert(isqrt_spec(bign as nat) <= s) by (nonlinear_arith)
        requires
            isqrt_spec(bign as nat) * isqrt_spec(bign as nat) <= bign,
            bign <= s * s,
            s >= 1,
    ;
    // Lower bound: the squared length cannot fall below (s - 3) * (s - 3).
    assert((rx + 1) * (rx + 1) + (ry + 1) * (ry + 1) > s * s) by (nonlinear_arith)
        requires
            (rx + 1) * (rx + 1) * n > (v.x * v.x) * (s * s),
            (ry + 1) * (ry + 1) * n > (v.y * v.y) * (s * s),
            n == v.x * v.x + v.y * v.y,
            n >= 1,
            s * s >= 0,
    ;
    assert((s - 3) * (s - 3) <= bign) by (nonlinear_arith)
        requires
            (rx + 1) * (rx + 1) + (ry + 1) * (ry + 1) > s * s,
            bign == rx * rx + ry * ry,
            0 <= rx <= s,
            0 <= ry <= s,
            s >= 6,
    ;
    assert(isqrt_spec(bign as nat) >= s - 3) by (nonlinear_arith)
        requires
            bign < (isqrt_spec(bign as nat) + 1) * (isqrt_spec(bign as nat) + 1),
            (s - 3) * (s - 3) <= bign,
            s >= 4,
    ;
    assert(v.norm_spec().len_spec()
        == isqrt_spec((v.norm_spec().x * v.norm_spec().x + v.norm_spec().y * v.norm_spec().y)
            as nat) as int);
    assert(v.norm_spec().x * v.norm_spec().x + v.norm_spec().y * v.norm_spec().y == bign);
}

/// Re-normalizing moves one component by at most three micro-units,
/// provided the squared length `n` of the already-normalized vector sits
/// within the brackets that normalization guarantees.
proof fn lemma_idempotent_component(c: int, n: int)
    requires
        n >= 1,
        c * c <= n,
        ((ONE as int) - 3) * ((ONE as int) - 3) <= n,
        n < ((ONE as int) + 1) * ((ONE as int) + 1),
        abs_val(c) <= ONE as int,
    ensures
        abs_val(norm_component(c, n) - c) <= 3,
{
    let s = ONE as int;
    let ca = abs_val(c);
    let r2 = norm_component_mag(c, n);
    lemma_norm_component_facts(c, n);
    assert(ca * ca == c * c) by (nonlinear_arith)
        requires
            ca == abs_val(c),
    ;
    assert(r2 * (s - 3) <= ca * s) by (nonlinear_arith)
        requires
            r2 * r2 * n <= (c * c) * (s * s),
            c * c == ca * ca,
            (s - 3) * (s - 3) <= n,
            r2 >= 0,
            ca >= 0,
            s >= 4,
    ;
    assert(r2 <= ca + 3) by (nonlinear_arith)
        requires
            r2 * (s - 3) <= ca * s,
            ca <= s,
            s == 1_000_000,
            r2 >= 0,
            ca >= 0,
    ;
    assert((r2 + 1) * (s + 1) > ca * s) by (nonlinear_arith)
        requires
            (r2 + 1) * (r2 + 1) * n > (c * c) * (s * s),
            c * c == ca * ca,
            n < (s + 1) * (s + 1),
            r2 >= 0,
            ca >= 0,
            s >= 1,
            n >= 1,
    ;
    assert(r2 >= ca - 2) by (nonlinear_arith)
        requires
            (r2 + 1) * (s + 1) > ca * s,
            r2 <= s,
            s == 1_000_000,
            ca >= 0,
            r2 >= 0,
    ;
}

/// Normalization is idempotent up to rounding: normalizing an already
/// normalized non-zero vector moves each component by at most three
/// micro-units.
pub proof fn lemma_normalize_idempotent(v: Vec2)
    requires
        v.bounded(),
        !(v.x == 0 && v.y == 0),
    ensures
        abs_val(v.norm_spec().norm_spec().x - v.norm_spec().x) <= 3,
        abs_val(v.norm_spec().norm_spec().y - v.norm_spec().y) <= 3,
{
    let s = ONE as int;
    lemma_norm_spec_bounds(v);
    lemma_normalize_unit_length(v);
    let w = v.norm_spec();
    let bign = w.x * w.x + w.y * w.y;
    assert(w.x * w.x >= 0 && w.y * w.y >= 0) by (nonlinear_arith);
    lemma_isqrt_spec_bracket(bign as nat);
    assert(s - 3 <= isqrt_spec(bign as nat) <= s);
    assert(bign >= (s - 3) * (s - 3)) by (nonlinear_arith)
        requires
            isqrt_spec(bign as nat) * isqrt_spec(bign as nat) <= bign,
            isqrt_spec(bign as nat) >= s - 3,
            s >= 4,
    ;
    assert(bign < (s + 1) * (s + 1)) by (nonlinear_arith)
        requires
            bign < (isqrt_spec(bign as nat) + 1) * (isqrt_spec(bign as nat) + 1),
            isqrt_spec(bign as nat) <= s,
            s >= 1,
    ;
    assert(bign >= 1) by (nonlinear_arith)
        requires
            bign >= (s - 3) * (s - 3),
            s >= 4,
    ;
    assert(!(w.x == 0 && w.y == 0)) by (nonlinear_arith)
        requires
            bign == w.x * w.x + w.y * w.y,
            bign >= 1,
    ;
    assert(abs_val(w.x as int) <= s);
    assert(abs_val(w.y as int) <= s);
    lemma_idempotent_component(w.x as int, bign);
    lemma_idempotent_component(w.y as int, bign);
    lemma_norm_component_facts(w.x as int, bign);
    lemma_norm_component_facts(w.y as int, bign);
    assert(w.norm_spec().x == norm_component(w.x as int, bign));
    assert(w.norm_spec().y == norm_component(w.y as int, bign));
}

/// Normalizing the zero vector returns it unchanged; no division happens.
pub proof fn lemma_normalize_zero(v: Vec2)
    requires
        v.x == 0,
        v.y == 0,
    ensures
        v.norm_spec() == v,
{
}

} // verus!
