//! Integer complex samples and their arithmetic.

use num_complex::Complex;
use vstd::prelude::*;

verus! {

/// One complex sample: in-phase and quadrature part.
#[derive(Clone, Copy, Debug, PartialEq, Eq, Structural)]
pub struct Iq {
    pub re: i32,
    pub im: i32,
}

/// The real part of `a * conj(b)`.
pub open spec fn cross_re(a: Iq, b: Iq) -> int {
    a.re * b.re + a.im * b.im
}

/// The imaginary part of `a * conj(b)`.
pub open spec fn cross_im(a: Iq, b: Iq) -> int {
    a.im * b.re - a.re * b.im
}

/// `v` can be held in an `i32`.
pub open spec fn fits(v: int) -> bool {
    i32::MIN <= v <= i32::MAX
}

/// Calls `AddAssign::add_assign` of `num_complex::Complex<i32>`: the parts are
/// added one by one. The sums have to fit.
#[verifier::external_body]
pub(crate) fn complex_add(a: Iq, b: Iq) -> (r: Iq)
    requires
        fits(a.re + b.re),
        fits(a.im + b.im),
    ensures
        r.re == a.re + b.re,
        r.im == a.im + b.im,
{
    let mut sum = Complex::new(a.re, a.im);
    sum += Complex::new(b.re, b.im);
    Iq { re: sum.re, im: sum.im }
}

/// Calls `num_complex::Complex::<i32>::conj`: the imaginary part changes its
/// sign. It must not be the one value whose negation does not fit.
#[verifier::external_body]
pub(crate) fn complex_conj(a: Iq) -> (r: Iq)
    requires
        a.im != i32::MIN,
    ensures
        r.re == a.re,
        r.im == -a.im,
{
    let c = Complex::new(a.re, a.im).conj();
    Iq { re: c.re, im: c.im }
}

/// Calls `Mul::mul` of `num_complex::Complex<i32>`: the product by the school
/// formula. Each of the four partial products and both of their combinations
/// have to fit.
#[verifier::external_body]
pub(crate) fn complex_mul(a: Iq, b: Iq) -> (r: Iq)
    requires
        fits(a.re * b.re),
        fits(a.im * b.im),
        fits(a.re * b.im),
        fits(a.im * b.re),
        fits(a.re * b.re - a.im * b.im),
        fits(a.re * b.im + a.im * b.re),
    ensures
        r.re == a.re * b.re - a.im * b.im,
        r.im == a.re * b.im + a.im * b.re,
{
    let c = Complex::new(a.re, a.im) * Complex::new(b.re, b.im);
    Iq { re: c.re, im: c.im }
}

/// `|v| <= m` for both parts.
pub open spec fn within(v: Iq, m: int) -> bool {
    -m <= v.re <= m && -m <= v.im <= m
}

/// The largest magnitude of a part for which the product of two samples, and
/// the sum of the magnitudes of its parts, always fits.
pub open spec fn max_part() -> int {
    32767
}

/// Bounds of `a * conj(b)` from the bounds of its factors.
pub proof fn lemma_cross_bounds(a: Iq, b: Iq, m: int)
    requires
        within(a, m),
        within(b, m),
        0 <= m,
    ensures
        -(m * m) <= a.re * b.re <= m * m,
        -(m * m) <= a.im * b.im <= m * m,
        -(m * m) <= a.re * b.im <= m * m,
        -(m * m) <= a.im * b.re <= m * m,
        -2 * (m * m) <= cross_re(a, b) + cross_im(a, b) <= 2 * (m * m),
        -2 * (m * m) <= cross_re(a, b) - cross_im(a, b) <= 2 * (m * m),
{
    lemma_product_bound(a.re as int, b.re as int, m);
    lemma_product_bound(a.im as int, b.im as int, m);
    lemma_product_bound(a.re as int, b.im as int, m);
    lemma_product_bound(a.im as int, b.re as int, m);
    let (p, q, r, s) = (a.re as int, a.im as int, b.re as int, b.im as int);
    // The sum is p*(r - s) + q*(r + s), the difference p*(r + s) + q*(s - r).
    assert(cross_re(a, b) + cross_im(a, b) == p * (r - s) + q * (r + s)) by (nonlinear_arith)
        requires
            cross_re(a, b) == p * r + q * s,
            cross_im(a, b) == q * r - p * s,
    ;
    assert(cross_re(a, b) - cross_im(a, b) == p * (r + s) + q * (s - r)) by (nonlinear_arith)
        requires
            cross_re(a, b) == p * r + q * s,
            cross_im(a, b) == q * r - p * s,
    ;
    lemma_pair_bound(p, q, r - s, r + s, m);
    lemma_pair_bound(p, q, r + s, s - r, m);
}

proof fn lemma_product_bound(x: int, y: int, m: int)
    requires
        -m <= x <= m,
        -m <= y <= m,
        0 <= m,
    ensures
        -(m * m) <= x * y <= m * m,
{
    assert(-(m * m) <= x * y <= m * m) by (nonlinear_arith)
        requires
            -m <= x <= m,
            -m <= y <= m,
            0 <= m,
    ;
}

/// `|p*u + q*v| <= m * (|u| + |v|) <= 2 * m * m`.
proof fn lemma_pair_bound(p: int, q: int, u: int, v: int, m: int)
    requires
        -m <= p <= m,
        -m <= q <= m,
        -2 * m <= u + v <= 2 * m,
        -2 * m <= u - v <= 2 * m,
        0 <= m,
    ensures
        -2 * (m * m) <= p * u + q * v <= 2 * (m * m),
{
    let au = if u < 0 { -u } else { u };
    let av = if v < 0 { -v } else { v };
    assert(-(m * au) <= p * u <= m * au) by (nonlinear_arith)
        requires
            -m <= p <= m,
            au == u || au == -u,
            au >= 0,
    ;
    assert(-(m * av) <= q * v <= m * av) by (nonlinear_arith)
        requires
            -m <= q <= m,
            av == v || av == -v,
            av >= 0,
    ;
    assert(m * au + m * av <= 2 * (m * m)) by (nonlinear_arith)
        requires
            au + av <= 2 * m,
            0 <= m,
    ;
}

/// The product with the conjugate of `b` is linear in the other factor.
pub proof fn lemma_cross_adds(a: Iq, c: Iq, sum: Iq, b: Iq)
    requires
        sum.re == a.re + c.re,
        sum.im == a.im + c.im,
    ensures
        cross_re(sum, b) == cross_re(a, b) + cross_re(c, b),
        cross_im(sum, b) == cross_im(a, b) + cross_im(c, b),
{
    assert((a.re + c.re) * b.re == a.re * b.re + c.re * b.re) by (nonlinear_arith);
    assert((a.im + c.im) * b.im == a.im * b.im + c.im * b.im) by (nonlinear_arith);
    assert((a.im + c.im) * b.re == a.im * b.re + c.im * b.re) by (nonlinear_arith);
    assert((a.re + c.re) * b.im == a.re * b.im + c.re * b.im) by (nonlinear_arith);
}

/// A factor and its own conjugate give the square of its length; a factor that is
/// ahead by a quarter turn gives the same square as an imaginary part.
pub proof fn lemma_cross_of_same(b: Iq, ahead: Iq)
    requires
        ahead.re == -b.im,
        ahead.im == b.re,
    ensures
        cross_re(b, b) == b.re * b.re + b.im * b.im,
        cross_im(b, b) == 0,
        cross_re(ahead, b) == 0,
        cross_im(ahead, b) == b.re * b.re + b.im * b.im,
{
    assert(b.im * b.re == b.re * b.im) by (nonlinear_arith);
    assert(ahead.re * b.re == -(b.im * b.re)) by (nonlinear_arith)
        requires
            ahead.re == -b.im,
    ;
    assert(ahead.re * b.im == -(b.im * b.im)) by (nonlinear_arith)
        requires
            ahead.re == -b.im,
    ;
}

/// Lengths are multiplied.
pub proof fn lemma_cross_length(a: Iq, b: Iq)
    ensures
        cross_re(a, b) * cross_re(a, b) + cross_im(a, b) * cross_im(a, b) == (a.re * a.re + a.im
            * a.im) * (b.re * b.re + b.im * b.im),
{
    let (p, q, r, s) = (a.re as int, a.im as int, b.re as int, b.im as int);
    let (e, f, g, h) = (p * r, q * s, q * r, p * s);
    assert((e + f) * (e + f) + (g - h) * (g - h) == e * e + f * f + g * g + h * h + 2 * (e * f) - 2
        * (g * h)) by (nonlinear_arith);
    assert(e * f == g * h) by (nonlinear_arith)
        requires
            e == p * r,
            f == q * s,
            g == q * r,
            h == p * s,
    ;
    let (pp, qq, rr, ss) = (p * p, q * q, r * r, s * s);
    assert(e * e == pp * rr) by (nonlinear_arith)
        requires
            e == p * r,
            pp == p * p,
            rr == r * r,
    ;
    assert(f * f == qq * ss) by (nonlinear_arith)
        requires
            f == q * s,
            qq == q * q,
            ss == s * s,
    ;
    assert(g * g == qq * rr) by (nonlinear_arith)
        requires
            g == q * r,
            qq == q * q,
            rr == r * r,
    ;
    assert(h * h == pp * ss) by (nonlinear_arith)
        requires
            h == p * s,
            pp == p * p,
            ss == s * s,
    ;
    assert((pp + qq) * (rr + ss) == pp * rr + pp * ss + qq * rr + qq * ss) by (nonlinear_arith);
}

/// `a * conj(b)`.
pub fn cross(a: Iq, b: Iq) -> (c: Iq)
    requires
        within(a, max_part()),
        within(b, max_part()),
    ensures
        c.re == cross_re(a, b),
        c.im == cross_im(a, b),
{
    let d = complex_conj(b);
    proof {
        lemma_cross_bounds(a, b, max_part());
        assert(max_part() * max_part() == 1073676289) by (nonlinear_arith);
        assert(a.im * d.im == -(a.im * b.im)) by (nonlinear_arith)
            requires
                d.im == -b.im,
        ;
        assert(a.re * d.im == -(a.re * b.im)) by (nonlinear_arith)
            requires
                d.im == -b.im,
        ;
    }
    complex_mul(a, d)
}

} // verus!
