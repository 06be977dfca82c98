//! Laws of the coefficient, proved over the engine's exact model.
//!
//! A defined coefficient is `s_xy / (sqrt(s_xx) * sqrt(s_yy))`, so a
//! statement about its value is a statement about that integer triple:
//! `|r| <= 1` is `s_xy^2 <= s_xx * s_yy`, `r == 1` is `s_xy > 0` together
//! with `s_xy^2 == s_xx * s_yy`, and `r == -1` is the same with `s_xy < 0`.

use vstd::prelude::*;

use crate::ingest::ObsV;
use crate::stats::{
    aligned, dotint, isum, max_scale, s_xx, s_xy, s_yy, stats_match, swapped, ux, uy, xdec,
    ydec, Coefficient, Statistics,
};

verus! {

pub proof fn lemma_dot_self_nonneg(a: Seq<int>)
    ensures
        dotint(a, a) >= 0,
    decreases a.len(),
{
    if a.len() > 0 {
        lemma_dot_self_nonneg(a.drop_last());
        assert(a.last() * a.last() >= 0) by (nonlinear_arith);
    }
}

/// Cauchy-Schwarz over integer sequences: the square of the inner product
/// is at most the product of the squared norms.
pub proof fn lemma_cauchy_schwarz(a: Seq<int>, b: Seq<int>)
    requires
        a.len() == b.len(),
    ensures
        dotint(a, b) * dotint(a, b) <= dotint(a, a) * dotint(b, b),
    decreases a.len(),
{
    if a.len() == 0 {
        assert(dotint(a, b) == 0);
    } else {
        let a0 = a.drop_last();
        let b0 = b.drop_last();
        lemma_cauchy_schwarz(a0, b0);
        lemma_dot_self_nonneg(a0);
        lemma_dot_self_nonneg(b0);
        let ca = dotint(a0, a0);
        let cb = dotint(b0, b0);
        let cc = dotint(a0, b0);
        let x = a.last();
        let y = b.last();
        if ca == 0 {
            assert(cc == 0) by (nonlinear_arith)
                requires
                    cc * cc <= ca * cb,
                    ca == 0,
            ;
            assert((cc + x * y) * (cc + x * y) <= (ca + x * x) * (cb + y * y))
                by (nonlinear_arith)
                requires
                    cc == 0,
                    ca == 0,
                    cb >= 0,
            ;
        } else {
            assert(ca * (ca * (y * y) + cb * (x * x) - 2 * cc * (x * y)) >= 0)
                by (nonlinear_arith)
                requires
                    cc * cc <= ca * cb,
            ;
            assert(ca * (y * y) + cb * (x * x) - 2 * cc * (x * y) >= 0) by (nonlinear_arith)
                requires
                    ca > 0,
                    ca * (ca * (y * y) + cb * (x * x) - 2 * cc * (x * y)) >= 0,
            ;
            assert((cc + x * y) * (cc + x * y) == cc * cc + 2 * cc * (x * y) + (x * y) * (x * y))
                by (nonlinear_arith);
            assert((ca + x * x) * (cb + y * y) == ca * cb + ca * (y * y) + cb * (x * x) + (x * x)
                * (y * y)) by (nonlinear_arith);
            assert((x * y) * (x * y) == (x * x) * (y * y)) by (nonlinear_arith);
            assert((cc + x * y) * (cc + x * y) <= (ca + x * x) * (cb + y * y));
        }
    }
}

/// Law: for every sample the coefficient is bounded: the square of its
/// numerator is at most the product of the squared sums, so the defined
/// coefficient lies in [-1, 1].
pub proof fn lemma_coefficient_bounded(s: Seq<ObsV>)
    ensures
        s_xy(s) * s_xy(s) <= s_xx(s) * s_yy(s),
        s_xx(s) >= 0,
        s_yy(s) >= 0,
{
    lemma_cauchy_schwarz(ux(s), uy(s));
    lemma_dot_self_nonneg(ux(s));
    lemma_dot_self_nonneg(uy(s));
}

pub proof fn lemma_dot_comm(a: Seq<int>, b: Seq<int>)
    requires
        a.len() == b.len(),
    ensures
        dotint(a, b) == dotint(b, a),
    decreases a.len(),
{
    if a.len() > 0 {
        lemma_dot_comm(a.drop_last(), b.drop_last());
        assert(a.last() * b.last() == b.last() * a.last()) by (nonlinear_arith);
    }
}

/// Law: swapping the roles of x and y across the whole sample leaves the
/// coefficient unchanged: the numerator is the same and the squared sums
/// exchange places, so their product, the squared denominator, is the same.
pub proof fn lemma_swap_symmetric(s: Seq<ObsV>)
    ensures
        s_xy(swapped(s)) == s_xy(s),
        s_xx(swapped(s)) == s_yy(s),
        s_yy(swapped(s)) == s_xx(s),
        s_xx(swapped(s)) * s_yy(swapped(s)) == s_xx(s) * s_yy(s),
{
    assert(xdec(swapped(s)) =~= ydec(s));
    assert(ydec(swapped(s)) =~= xdec(s));
    lemma_dot_comm(uy(s), ux(s));
    assert(s_yy(s) * s_xx(s) == s_xx(s) * s_yy(s)) by (nonlinear_arith);
}

pub proof fn lemma_isum_linear(a: Seq<int>, b: Seq<int>, p: int, q: int, c: int)
    requires
        a.len() == b.len(),
        forall|i: int| 0 <= i < a.len() ==> q * b[i] == p * a[i] + c,
    ensures
        q * isum(b) == p * isum(a) + c * a.len(),
    decreases a.len(),
{
    if a.len() == 0 {
        assert(q * 0 == p * 0 + c * 0) by (nonlinear_arith);
    } else {
        let a0 = a.drop_last();
        let b0 = b.drop_last();
        lemma_isum_linear(a0, b0, p, q, c);
        assert(q * b.last() == p * a.last() + c);
        assert(q * (isum(b0) + b.last()) == p * (isum(a0) + a.last()) + c * a.len())
            by (nonlinear_arith)
            requires
                q * isum(b0) == p * isum(a0) + c * (a.len() - 1),
                q * b.last() == p * a.last() + c,
        ;
    }
}

pub proof fn lemma_dot_scaled(a: Seq<int>, b: Seq<int>, p: int, q: int)
    requires
        a.len() == b.len(),
        forall|i: int| 0 <= i < a.len() ==> q * b[i] == p * a[i],
    ensures
        q * dotint(a, b) == p * dotint(a, a),
        (q * q) * dotint(b, b) == (p * p) * dotint(a, a),
    decreases a.len(),
{
    if a.len() == 0 {
        assert(q * 0 == p * 0 && (q * q) * 0 == (p * p) * 0) by (nonlinear_arith);
    } else {
        let a0 = a.drop_last();
        let b0 = b.drop_last();
        lemma_dot_scaled(a0, b0, p, q);
        let x = a.last();
        let y = b.last();
        assert(q * y == p * x);
        assert(q * (dotint(a0, b0) + x * y) == p * (dotint(a0, a0) + x * x)) by (nonlinear_arith)
            requires
                q * dotint(a0, b0) == p * dotint(a0, a0),
                q * y == p * x,
        ;
        assert((q * q) * (dotint(b0, b0) + y * y) == (p * p) * (dotint(a0, a0) + x * x))
            by (nonlinear_arith)
            requires
                (q * q) * dotint(b0, b0) == (p * p) * dotint(a0, a0),
                q * y == p * x,
        ;
    }
}

/// Law: an exact linear relation between the axes makes the coefficient
/// exactly 1 or exactly -1, after the sign of the slope. The relation
/// `y = (p/q) * x + (c / (q * 10^sy))` over the observation values is the
/// integer relation `q * ay[i] == p * ax[i] + c` over the axis numerators,
/// which is the hypothesis; a slope of zero instead forces zero variance
/// on the y axis, where the coefficient is undefined.
pub proof fn lemma_linear_relation(s: Seq<ObsV>, p: int, q: int, c: int)
    requires
        q > 0,
        forall|i: int| 0 <= i < s.len() ==> q * aligned(ydec(s))[i] == p * aligned(xdec(s))[i]
            + c,
        s_xx(s) > 0,
    ensures
        s_xy(s) * s_xy(s) == s_xx(s) * s_yy(s),
        p > 0 ==> s_xy(s) > 0,
        p < 0 ==> s_xy(s) < 0,
        p == 0 ==> s_yy(s) == 0,
{
    let a = aligned(xdec(s));
    let b = aligned(ydec(s));
    let n = s.len() as int;
    lemma_isum_linear(a, b, p, q, c);
    assert forall|i: int| 0 <= i < n implies q * uy(s)[i] == p * ux(s)[i] by {
        assert(ux(s)[i] == n * a[i] - isum(a));
        assert(uy(s)[i] == n * b[i] - isum(b));
        assert(q * (n * b[i] - isum(b)) == p * (n * a[i] - isum(a))) by (nonlinear_arith)
            requires
                q * b[i] == p * a[i] + c,
                q * isum(b) == p * isum(a) + c * n,
        ;
    }
    lemma_dot_scaled(ux(s), uy(s), p, q);
    let sxy = s_xy(s);
    let sxx = s_xx(s);
    let syy = s_yy(s);
    assert(sxy * sxy == sxx * syy) by (nonlinear_arith)
        requires
            q > 0,
            q * sxy == p * sxx,
            (q * q) * syy == (p * p) * sxx,
    ;
    assert(p > 0 ==> sxy > 0) by (nonlinear_arith)
        requires
            q > 0,
            sxx > 0,
            q * sxy == p * sxx,
    ;
    assert(p < 0 ==> sxy < 0) by (nonlinear_arith)
        requires
            q > 0,
            sxx > 0,
            q * sxy == p * sxx,
    ;
    assert(p == 0 ==> syy == 0) by (nonlinear_arith)
        requires
            q > 0,
            (q * q) * syy == (p * p) * sxx,
    ;
}

/// Law: whenever the engine answers a defined coefficient, it lies in
/// [-1, 1]: the square of its numerator is at most the product of its two
/// positive squared sums.
pub proof fn lemma_engine_coefficient_bounded(st: Statistics, s: Seq<ObsV>)
    requires
        stats_match(st, s),
    ensures
        st.pearson_coefficient matches Coefficient::Defined { numerator, sum_sq_x, sum_sq_y }
            ==> (numerator as int) * (numerator as int) <= (sum_sq_x as int) * (sum_sq_y as int)
            && sum_sq_x > 0 && sum_sq_y > 0,
{
    lemma_coefficient_bounded(s);
}

/// Law: whenever the engine sees an exact linear relation with positive
/// slope and nonzero variance on the x axis, it answers the coefficient
/// exactly 1; with negative slope, exactly -1. The slope `p/q` and
/// intercept appear as the integer relation of the hypothesis over the
/// axis numerators.
pub proof fn lemma_engine_linear_relation(st: Statistics, s: Seq<ObsV>, p: int, q: int, c: int)
    requires
        stats_match(st, s),
        q > 0,
        p != 0,
        forall|i: int| 0 <= i < s.len() ==> q * aligned(ydec(s))[i] == p * aligned(xdec(s))[i]
            + c,
        s_xx(s) > 0,
    ensures
        st.pearson_coefficient matches Coefficient::Defined { numerator, sum_sq_x, sum_sq_y }
            && (numerator as int) * (numerator as int) == (sum_sq_x as int) * (sum_sq_y as int)
            && (p > 0 ==> numerator > 0) && (p < 0 ==> numerator < 0),
{
    lemma_linear_relation(s, p, q, c);
    let sxy = s_xy(s);
    let sxx = s_xx(s);
    assert(s_yy(s) > 0) by (nonlinear_arith)
        requires
            sxy * sxy == sxx * s_yy(s),
            sxx > 0,
            sxy != 0,
    ;
}

/// Law: swapping the roles of x and y across the whole sample leaves the
/// engine's coefficient unchanged: the two answers are undefined together,
/// or defined with the same numerator and with the squared sums exchanged,
/// so the denominator, the root of their product, is also the same.
pub proof fn lemma_engine_swap_symmetric(st: Statistics, ts: Statistics, s: Seq<ObsV>)
    requires
        stats_match(st, s),
        stats_match(ts, swapped(s)),
    ensures
        st.pearson_coefficient is Undefined <==> ts.pearson_coefficient is Undefined,
        (st.pearson_coefficient matches Coefficient::Defined { numerator, sum_sq_x, sum_sq_y }
            ==> ts.pearson_coefficient == Coefficient::Defined {
            numerator,
            sum_sq_x: sum_sq_y,
            sum_sq_y: sum_sq_x,
        }),
{
    lemma_swap_symmetric(s);
}

/// Law: on a degenerate sample, one of size one or one whose x values are
/// all identical, the engine answers the undefined coefficient, never an
/// arbitrary finite value.
pub proof fn lemma_engine_degenerate_undefined(st: Statistics, s: Seq<ObsV>)
    requires
        stats_match(st, s),
        s.len() == 1 || forall|i: int, j: int|
            0 <= i < s.len() && 0 <= j < s.len() ==> #[trigger] s[i].x == #[trigger] s[j].x,
    ensures
        st.pearson_coefficient is Undefined,
{
    if s.len() == 1 {
        lemma_single_degenerate(s);
    } else {
        lemma_constant_x_degenerate(s);
    }
}

pub proof fn lemma_isum_constant(a: Seq<int>, w: int)
    requires
        forall|i: int| 0 <= i < a.len() ==> a[i] == w,
    ensures
        isum(a) == a.len() * w,
    decreases a.len(),
{
    if a.len() == 0 {
        assert(0 * w == 0) by (nonlinear_arith);
    } else {
        lemma_isum_constant(a.drop_last(), w);
        assert((a.len() - 1) * w + w == a.len() * w) by (nonlinear_arith);
    }
}

pub proof fn lemma_dot_zero(a: Seq<int>)
    requires
        forall|i: int| 0 <= i < a.len() ==> a[i] == 0,
    ensures
        dotint(a, a) == 0,
    decreases a.len(),
{
    if a.len() > 0 {
        lemma_dot_zero(a.drop_last());
    }
}

/// Law: a sample of size one is degenerate: both squared sums are zero,
/// so the coefficient is the undefined sentinel, never a finite number.
pub proof fn lemma_single_degenerate(s: Seq<ObsV>)
    requires
        s.len() == 1,
    ensures
        s_xx(s) == 0,
        s_yy(s) == 0,
{
    let a = aligned(xdec(s));
    let b = aligned(ydec(s));
    assert(a.drop_last().len() == 0 && b.drop_last().len() == 0);
    assert(isum(a.drop_last()) == 0 && isum(b.drop_last()) == 0);
    assert(a.last() == a[0] && b.last() == b[0]);
    assert(isum(a) == a[0] && isum(b) == b[0]);
    assert(ux(s)[0] == 1 * a[0] - a[0]);
    assert(uy(s)[0] == 1 * b[0] - b[0]);
    assert(1 * a[0] == a[0] && 1 * b[0] == b[0]) by (nonlinear_arith);
    lemma_dot_zero(ux(s));
    lemma_dot_zero(uy(s));
}

/// Law: an axis on which every observation is the same value has zero
/// variance: its squared sum is zero, so the coefficient is the undefined
/// sentinel, never a finite number.
pub proof fn lemma_constant_x_degenerate(s: Seq<ObsV>)
    requires
        forall|i: int, j: int|
            0 <= i < s.len() && 0 <= j < s.len() ==> #[trigger] s[i].x == #[trigger] s[j].x,
    ensures
        s_xx(s) == 0,
{
    let a = aligned(xdec(s));
    let n = s.len() as int;
    if s.len() == 0 {
        lemma_dot_zero(ux(s));
    } else {
        let w = a[0];
        assert forall|i: int| 0 <= i < n implies a[i] == w by {
            assert(s[i].x == s[0].x);
            assert(xdec(s)[i] == s[i].x && xdec(s)[0] == s[0].x);
        }
        lemma_isum_constant(a, w);
        assert forall|i: int| 0 <= i < n implies ux(s)[i] == 0 by {
            assert(ux(s)[i] == n * a[i] - isum(a));
        }
        lemma_dot_zero(ux(s));
    }
}

} // verus!


