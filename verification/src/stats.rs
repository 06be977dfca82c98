//! The statistics engine.
//!
//! Every observation value `mant / 10^scale` on one axis is brought to the
//! axis's largest scale, which turns the axis into a vector of integer
//! numerators over one shared power-of-ten denominator. Means, deviations,
//! squared deviations and deviation products are then exact rational
//! numbers whose numerators and denominators are built from those integers,
//! and the correlation coefficient
//! `sum(u*v) / (sqrt(sum(u*u)) * sqrt(sum(v*v)))`, taken over the deviation
//! numerators `u` and `v`, is carried exactly as that integer triple: the
//! shared denominators of `u` and `v` cancel out of the quotient.
//!
//! All arithmetic is checked: the engine answers `None` exactly when some
//! exact intermediate value falls outside the `i128` range, and otherwise
//! the returned statistics are exact. An empty sample has no means (they
//! would divide by zero) and a sample with fewer than two distinct values
//! on an axis has no coefficient: both are answered with the explicit
//! `None` / `Undefined` values below, never with an arbitrary number.

use vstd::prelude::*;

use crate::ingest::{ObsV, Sample};
use crate::num::{lemma_pow10_monotone, lemma_pow10_positive, pow10, DecV, Decimal};

verus! {

/// `x` fits in an `i128`.
pub open spec fn in128(x: int) -> bool {
    i128::MIN <= x <= i128::MAX
}

pub open spec fn dviews(ds: Seq<Decimal>) -> Seq<DecV> {
    ds.map(|i: int, d: Decimal| d@)
}

pub open spec fn ints(s: Seq<i128>) -> Seq<int> {
    s.map_values(|x: i128| x as int)
}

/// The x components of a sample.
pub open spec fn xdec(s: Seq<ObsV>) -> Seq<DecV> {
    s.map(|i: int, o: ObsV| o.x)
}

/// The y components of a sample.
pub open spec fn ydec(s: Seq<ObsV>) -> Seq<DecV> {
    s.map(|i: int, o: ObsV| o.y)
}

/// The largest scale on an axis: the shared power-of-ten exponent.
pub open spec fn max_scale(ds: Seq<DecV>) -> nat
    decreases ds.len(),
{
    if ds.len() == 0 {
        0
    } else {
        let m = max_scale(ds.drop_last());
        if ds.last().scale > m {
            ds.last().scale
        } else {
            m
        }
    }
}

pub proof fn lemma_max_scale_ge(ds: Seq<DecV>, i: int)
    requires
        0 <= i < ds.len(),
    ensures
        ds[i].scale <= max_scale(ds),
    decreases ds.len(),
{
    if i < ds.len() - 1 {
        lemma_max_scale_ge(ds.drop_last(), i);
    }
}

pub proof fn lemma_max_scale_attained(ds: Seq<DecV>)
    requires
        ds.len() > 0,
    ensures
        exists|i: int| 0 <= i < ds.len() && ds[i].scale == max_scale(ds),
    decreases ds.len(),
{
    if ds.len() == 1 {
        assert(max_scale(ds.drop_last()) == 0);
        assert(ds[0].scale == max_scale(ds));
    } else if ds.last().scale == max_scale(ds) {
        assert(ds[ds.len() - 1].scale == max_scale(ds));
    } else {
        lemma_max_scale_attained(ds.drop_last());
        let i = choose|i: int|
            0 <= i < ds.drop_last().len() && ds.drop_last()[i].scale == max_scale(ds.drop_last());
        assert(ds[i].scale == max_scale(ds));
    }
}

/// The numerators of an axis over the shared denominator `10^max_scale`.
pub open spec fn aligned(ds: Seq<DecV>) -> Seq<int> {
    Seq::new(ds.len(), |i: int| ds[i].mant * pow10((max_scale(ds) - ds[i].scale) as nat))
}

/// Sum of a sequence of integers.
pub open spec fn isum(s: Seq<int>) -> int
    decreases s.len(),
{
    if s.len() == 0 {
        0
    } else {
        isum(s.drop_last()) + s.last()
    }
}

/// Inner product of two equally long sequences of integers.
pub open spec fn dotint(a: Seq<int>, b: Seq<int>) -> int
    decreases a.len(),
{
    if a.len() == 0 || b.len() == 0 {
        0
    } else {
        dotint(a.drop_last(), b.drop_last()) + a.last() * b.last()
    }
}

/// Deviation numerators of an axis with numerators `a`: the value
/// `a[i]/d - isum(a)/(n*d)` is `devs(a)[i]` over the denominator `n*d`.
pub open spec fn devs(a: Seq<int>) -> Seq<int> {
    Seq::new(a.len(), |i: int| a.len() * a[i] - isum(a))
}

/// Deviation numerators of the x axis.
pub open spec fn ux(s: Seq<ObsV>) -> Seq<int> {
    devs(aligned(xdec(s)))
}

/// Deviation numerators of the y axis.
pub open spec fn uy(s: Seq<ObsV>) -> Seq<int> {
    devs(aligned(ydec(s)))
}

/// Numerator of the coefficient: the sum of deviation products.
pub open spec fn s_xy(s: Seq<ObsV>) -> int {
    dotint(ux(s), uy(s))
}

/// Sum of squared x deviation numerators.
pub open spec fn s_xx(s: Seq<ObsV>) -> int {
    dotint(ux(s), ux(s))
}

/// Sum of squared y deviation numerators.
pub open spec fn s_yy(s: Seq<ObsV>) -> int {
    dotint(uy(s), uy(s))
}

// Conditions under which the engine's exact intermediate values fit in an
// `i128`. The engine succeeds exactly when all of them hold.

pub open spec fn den_ok(ds: Seq<DecV>, i: int) -> bool {
    in128(pow10(ds[i].scale))
}

pub open spec fn dens_fit(ds: Seq<DecV>) -> bool {
    forall|i: int| 0 <= i < ds.len() ==> #[trigger] den_ok(ds, i)
}

pub open spec fn align_ok(ds: Seq<DecV>, i: int) -> bool {
    in128(pow10((max_scale(ds) - ds[i].scale) as nat)) && in128(aligned(ds)[i])
}

pub open spec fn aligned_fits(ds: Seq<DecV>) -> bool {
    forall|i: int| 0 <= i < ds.len() ==> #[trigger] align_ok(ds, i)
}

pub open spec fn sum_prefix_ok(a: Seq<int>, k: int) -> bool {
    in128(isum(a.subrange(0, k)))
}

pub open spec fn sums_fit(a: Seq<int>) -> bool {
    forall|k: int| 0 <= k <= a.len() ==> #[trigger] sum_prefix_ok(a, k)
}

pub open spec fn devs_ok(a: Seq<int>, i: int) -> bool {
    in128(a.len() * a[i]) && in128(a.len() * a[i] - isum(a))
}

pub open spec fn devs_fit(a: Seq<int>) -> bool {
    forall|i: int| 0 <= i < a.len() ==> #[trigger] devs_ok(a, i)
}

pub open spec fn prod_ok(a: Seq<int>, b: Seq<int>, i: int) -> bool {
    in128(a[i] * b[i])
}

pub open spec fn dot_prefix_ok(a: Seq<int>, b: Seq<int>, k: int) -> bool {
    in128(dotint(a.subrange(0, k), b.subrange(0, k)))
}

pub open spec fn dot_fits(a: Seq<int>, b: Seq<int>) -> bool {
    &&& forall|i: int| 0 <= i < a.len() ==> #[trigger] prod_ok(a, b, i)
    &&& forall|k: int| 0 <= k <= a.len() ==> #[trigger] dot_prefix_ok(a, b, k)
}

/// Every exact intermediate value of the engine fits in an `i128`.
pub open spec fn stats_fit(s: Seq<ObsV>) -> bool {
    let ax = aligned(xdec(s));
    let ay = aligned(ydec(s));
    let u = ux(s);
    let v = uy(s);
    let n = s.len() as int;
    let dx = n * pow10(max_scale(xdec(s)));
    let dy = n * pow10(max_scale(ydec(s)));
    &&& dens_fit(xdec(s))
    &&& dens_fit(ydec(s))
    &&& aligned_fits(xdec(s))
    &&& aligned_fits(ydec(s))
    &&& sums_fit(ax)
    &&& sums_fit(ay)
    &&& devs_fit(ax)
    &&& devs_fit(ay)
    &&& dot_fits(u, v)
    &&& dot_fits(u, u)
    &&& dot_fits(v, v)
    &&& n > 0 ==> in128(dx)
    &&& n > 0 ==> in128(dy)
    &&& n > 0 ==> in128(dx * dx)
    &&& n > 0 ==> in128(dy * dy)
    &&& n > 0 ==> in128(dx * dy)
}

// Executable helpers, each with an exact contract.

/// `10^k` when it fits in an `i128`.
pub fn pow10_i128(k: usize) -> (r: Option<i128>)
    ensures
        r is Some <==> in128(pow10(k as nat)),
        r matches Some(p) ==> p as int == pow10(k as nat),
{
    proof {
        lemma_pow10_positive(k as nat);
    }
    let mut i: usize = 0;
    let mut acc: i128 = 1;
    while i < k
        invariant
            i <= k,
            acc as int == pow10(i as nat),
            acc >= 1,
        decreases k - i,
    {
        proof {
            lemma_pow10_positive(i as nat);
        }
        match acc.checked_mul(10) {
            Some(v) => {
                acc = v;
            },
            None => {
                proof {
                    lemma_pow10_monotone((i + 1) as nat, k as nat);
                }
                return None;
            },
        }
        i = i + 1;
    }
    Some(acc)
}

/// The x components of the sample, in order.
fn xs_of(sample: &Sample) -> (r: Vec<Decimal>)
    ensures
        dviews(r@) == xdec(sample@),
{
    let mut out: Vec<Decimal> = Vec::new();
    let mut i: usize = 0;
    while i < sample.obs.len()
        invariant
            i <= sample.obs.len(),
            out@.len() == i,
            forall|j: int| 0 <= j < i ==> out@[j]@ == sample@[j].x,
        decreases sample.obs.len() - i,
    {
        out.push(sample.obs[i].x);
        i = i + 1;
    }
    proof {
        assert(dviews(out@) =~= xdec(sample@));
    }
    out
}

/// The y components of the sample, in order.
fn ys_of(sample: &Sample) -> (r: Vec<Decimal>)
    ensures
        dviews(r@) == ydec(sample@),
{
    let mut out: Vec<Decimal> = Vec::new();
    let mut i: usize = 0;
    while i < sample.obs.len()
        invariant
            i <= sample.obs.len(),
            out@.len() == i,
            forall|j: int| 0 <= j < i ==> out@[j]@ == sample@[j].y,
        decreases sample.obs.len() - i,
    {
        out.push(sample.obs[i].y);
        i = i + 1;
    }
    proof {
        assert(dviews(out@) =~= ydec(sample@));
    }
    out
}

/// The largest scale of the axis.
fn max_scale_exec(ds: &Vec<Decimal>) -> (r: usize)
    ensures
        r as nat == max_scale(dviews(ds@)),
{
    let mut m: usize = 0;
    let mut i: usize = 0;
    while i < ds.len()
        invariant
            i <= ds.len(),
            m as nat == max_scale(dviews(ds@).subrange(0, i as int)),
        decreases ds.len() - i,
    {
        proof {
            assert(dviews(ds@).subrange(0, i + 1).drop_last() =~= dviews(ds@).subrange(
                0,
                i as int,
            ));
            assert(dviews(ds@).subrange(0, i + 1).last() == ds@[i as int]@);
        }
        if ds[i].scale > m {
            m = ds[i].scale;
        }
        i = i + 1;
    }
    proof {
        assert(dviews(ds@).subrange(0, ds@.len() as int) =~= dviews(ds@));
    }
    m
}

/// The axis numerators over the shared denominator `10^max_scale`.
fn align(ds: &Vec<Decimal>) -> (r: Option<Vec<i128>>)
    ensures
        r is Some <==> aligned_fits(dviews(ds@)),
        r matches Some(a) ==> ints(a@) == aligned(dviews(ds@)),
{
    let ghost dv = dviews(ds@);
    let smax = max_scale_exec(ds);
    let mut out: Vec<i128> = Vec::new();
    let mut i: usize = 0;
    while i < ds.len()
        invariant
            i <= ds.len() == dv.len(),
            dv == dviews(ds@),
            smax as nat == max_scale(dv),
            out@.len() == i,
            forall|j: int| 0 <= j < i ==> #[trigger] align_ok(dv, j),
            forall|j: int| 0 <= j < i ==> out@[j] as int == aligned(dv)[j],
        decreases ds.len() - i,
    {
        let d = ds[i];
        proof {
            lemma_max_scale_ge(dv, i as int);
        }
        let diff: usize = smax - d.scale;
        match pow10_i128(diff) {
            None => {
                proof {
                    assert(!align_ok(dv, i as int));
                }
                return None;
            },
            Some(p) => {
                match d.mant.checked_mul(p) {
                    None => {
                        proof {
                            assert(!align_ok(dv, i as int));
                        }
                        return None;
                    },
                    Some(m) => {
                        out.push(m);
                    },
                }
            },
        }
        i = i + 1;
    }
    proof {
        assert(ints(out@) =~= aligned(dv));
    }
    Some(out)
}

/// The sum of the numerators, by checked addition.
fn sum_vec(a: &Vec<i128>) -> (r: Option<i128>)
    ensures
        r is Some <==> sums_fit(ints(a@)),
        r matches Some(t) ==> t as int == isum(ints(a@)),
{
    let ghost av = ints(a@);
    let mut acc: i128 = 0;
    let mut i: usize = 0;
    proof {
        assert(av.subrange(0, 0) =~= Seq::<int>::empty());
    }
    while i < a.len()
        invariant
            i <= a.len() == av.len(),
            av == ints(a@),
            acc as int == isum(av.subrange(0, i as int)),
            forall|k: int| 0 <= k <= i ==> #[trigger] sum_prefix_ok(av, k),
        decreases a.len() - i,
    {
        proof {
            assert(av.subrange(0, i + 1).drop_last() =~= av.subrange(0, i as int));
            assert(av.subrange(0, i + 1).last() == a@[i as int] as int);
        }
        match acc.checked_add(a[i]) {
            None => {
                proof {
                    assert(!sum_prefix_ok(av, i + 1));
                }
                return None;
            },
            Some(v) => {
                acc = v;
            },
        }
        i = i + 1;
    }
    proof {
        assert(av.subrange(0, av.len() as int) =~= av);
    }
    Some(acc)
}

/// The deviation numerators `n*a[i] - total` of an axis.
fn deviations_vec(a: &Vec<i128>, total: i128) -> (r: Option<Vec<i128>>)
    requires
        total as int == isum(ints(a@)),
    ensures
        r is Some <==> devs_fit(ints(a@)),
        r matches Some(u) ==> ints(u@) == devs(ints(a@)),
{
    let ghost av = ints(a@);
    let n: usize = a.len();
    let n128: i128 = n as i128;
    let mut out: Vec<i128> = Vec::new();
    let mut i: usize = 0;
    while i < n
        invariant
            i <= n == av.len(),
            av == ints(a@),
            n128 as int == av.len(),
            total as int == isum(av),
            out@.len() == i,
            forall|j: int| 0 <= j < i ==> #[trigger] devs_ok(av, j),
            forall|j: int| 0 <= j < i ==> out@[j] as int == devs(av)[j],
        decreases n - i,
    {
        match n128.checked_mul(a[i]) {
            None => {
                proof {
                    assert(!devs_ok(av, i as int));
                }
                return None;
            },
            Some(t) => {
                match t.checked_sub(total) {
                    None => {
                        proof {
                            assert(!devs_ok(av, i as int));
                        }
                        return None;
                    },
                    Some(d) => {
                        out.push(d);
                    },
                }
            },
        }
        i = i + 1;
    }
    proof {
        assert(ints(out@) =~= devs(av));
    }
    Some(out)
}

/// The inner product of two numerator vectors, by checked arithmetic.
fn dot_vec(a: &Vec<i128>, b: &Vec<i128>) -> (r: Option<i128>)
    requires
        a@.len() == b@.len(),
    ensures
        r is Some <==> dot_fits(ints(a@), ints(b@)),
        r matches Some(t) ==> t as int == dotint(ints(a@), ints(b@)),
{
    let ghost av = ints(a@);
    let ghost bv = ints(b@);
    let mut acc: i128 = 0;
    let mut i: usize = 0;
    proof {
        assert(av.subrange(0, 0) =~= Seq::<int>::empty());
        assert(bv.subrange(0, 0) =~= Seq::<int>::empty());
    }
    while i < a.len()
        invariant
            i <= a.len() == av.len(),
            bv.len() == av.len(),
            av == ints(a@),
            bv == ints(b@),
            acc as int == dotint(av.subrange(0, i as int), bv.subrange(0, i as int)),
            forall|j: int| 0 <= j < i ==> #[trigger] prod_ok(av, bv, j),
            forall|k: int| 0 <= k <= i ==> #[trigger] dot_prefix_ok(av, bv, k),
        decreases a.len() - i,
    {
        proof {
            assert(av.subrange(0, i + 1).drop_last() =~= av.subrange(0, i as int));
            assert(bv.subrange(0, i + 1).drop_last() =~= bv.subrange(0, i as int));
            assert(av.subrange(0, i + 1).last() == a@[i as int] as int);
            assert(bv.subrange(0, i + 1).last() == b@[i as int] as int);
        }
        match a[i].checked_mul(b[i]) {
            None => {
                proof {
                    assert(!prod_ok(av, bv, i as int));
                }
                return None;
            },
            Some(p) => {
                match acc.checked_add(p) {
                    None => {
                        proof {
                            assert(!dot_prefix_ok(av, bv, i + 1));
                        }
                        return None;
                    },
                    Some(v) => {
                        acc = v;
                    },
                }
            },
        }
        i = i + 1;
    }
    proof {
        assert(av.subrange(0, av.len() as int) =~= av);
        assert(bv.subrange(0, bv.len() as int) =~= bv);
    }
    Some(acc)
}

/// An exact rational number `num / den` with `den > 0`.
#[derive(Clone, Copy, PartialEq, Eq, Structural, Debug)]
pub struct Rat {
    pub num: i128,
    pub den: i128,
}

/// Mathematical image of a `Rat`.
pub struct RatV {
    pub num: int,
    pub den: int,
}

impl View for Rat {
    type V = RatV;

    open spec fn view(&self) -> RatV {
        RatV { num: self.num as int, den: self.den as int }
    }
}

pub open spec fn rat_is(r: RatV, num: int, den: int) -> bool {
    r.num == num && r.den == den
}

/// The correlation coefficient. A defined coefficient is the exact value
/// `numerator / (sqrt(sum_sq_x) * sqrt(sum_sq_y))` with both sums positive;
/// `Undefined` is the not-a-number outcome owed when the sample is empty,
/// has one observation, or has zero variance on an axis.
#[derive(Clone, Copy, PartialEq, Eq, Structural, Debug)]
pub enum Coefficient {
    Undefined,
    Defined { numerator: i128, sum_sq_x: i128, sum_sq_y: i128 },
}

/// The derived, read-only snapshot of a sample's statistics. Sequences are
/// index-aligned with the sample; the means are `None` exactly when the
/// sample is empty.
pub struct Statistics {
    pub x_values: Vec<Rat>,
    pub y_values: Vec<Rat>,
    pub mean_x: Option<Rat>,
    pub mean_y: Option<Rat>,
    pub deviation_x: Vec<Rat>,
    pub deviation_y: Vec<Rat>,
    pub deviation_squared_x: Vec<Rat>,
    pub deviation_squared_y: Vec<Rat>,
    pub product_deviation_scores: Vec<Rat>,
    pub pearson_coefficient: Coefficient,
}

/// What the engine's output says, value by value, about the sample `s`.
pub open spec fn stats_match(st: Statistics, s: Seq<ObsV>) -> bool {
    let n = s.len() as int;
    let ax = aligned(xdec(s));
    let ay = aligned(ydec(s));
    let u = ux(s);
    let v = uy(s);
    let dx = n * pow10(max_scale(xdec(s)));
    let dy = n * pow10(max_scale(ydec(s)));
    &&& st.x_values@.len() == n
    &&& forall|i: int| 0 <= i < n ==> rat_is(#[trigger] st.x_values@[i]@, s[i].x.mant, pow10(s[i].x.scale))
    &&& st.y_values@.len() == n
    &&& forall|i: int| 0 <= i < n ==> rat_is(#[trigger] st.y_values@[i]@, s[i].y.mant, pow10(s[i].y.scale))
    &&& if n == 0 {
        st.mean_x is None && st.mean_y is None
    } else {
        &&& st.mean_x matches Some(m) && rat_is(m@, isum(ax), dx)
        &&& st.mean_y matches Some(m) && rat_is(m@, isum(ay), dy)
    }
    &&& st.deviation_x@.len() == n
    &&& forall|i: int| 0 <= i < n ==> rat_is(#[trigger] st.deviation_x@[i]@, u[i], dx)
    &&& st.deviation_y@.len() == n
    &&& forall|i: int| 0 <= i < n ==> rat_is(#[trigger] st.deviation_y@[i]@, v[i], dy)
    &&& st.deviation_squared_x@.len() == n
    &&& forall|i: int| 0 <= i < n ==> rat_is(
        #[trigger] st.deviation_squared_x@[i]@,
        u[i] * u[i],
        dx * dx,
    )
    &&& st.deviation_squared_y@.len() == n
    &&& forall|i: int| 0 <= i < n ==> rat_is(
        #[trigger] st.deviation_squared_y@[i]@,
        v[i] * v[i],
        dy * dy,
    )
    &&& st.product_deviation_scores@.len() == n
    &&& forall|i: int| 0 <= i < n ==> rat_is(
        #[trigger] st.product_deviation_scores@[i]@,
        u[i] * v[i],
        dx * dy,
    )
    &&& if s_xx(s) > 0 && s_yy(s) > 0 {
        st.pearson_coefficient matches Coefficient::Defined { numerator, sum_sq_x, sum_sq_y }
            && numerator as int == s_xy(s) && sum_sq_x as int == s_xx(s) && sum_sq_y as int
            == s_yy(s)
    } else {
        st.pearson_coefficient is Undefined
    }
}

/// The raw values of one axis as rationals `mant / 10^scale`.
fn value_rats(ds: &Vec<Decimal>) -> (r: Option<Vec<Rat>>)
    ensures
        r is Some <==> dens_fit(dviews(ds@)),
        r matches Some(out) ==> out@.len() == ds@.len() && forall|i: int|
            0 <= i < ds@.len() ==> rat_is(
                #[trigger] out@[i]@,
                ds@[i]@.mant,
                pow10(ds@[i]@.scale),
            ),
{
    let ghost dv = dviews(ds@);
    let mut out: Vec<Rat> = Vec::new();
    let mut i: usize = 0;
    while i < ds.len()
        invariant
            i <= ds.len() == dv.len(),
            dv == dviews(ds@),
            out@.len() == i,
            forall|j: int| 0 <= j < i ==> #[trigger] den_ok(dv, j),
            forall|j: int| 0 <= j < i ==> rat_is(#[trigger] out@[j]@, dv[j].mant, pow10(dv[j].scale)),
        decreases ds.len() - i,
    {
        match pow10_i128(ds[i].scale) {
            None => {
                proof {
                    assert(!den_ok(dv, i as int));
                }
                return None;
            },
            Some(p) => {
                out.push(Rat { num: ds[i].mant, den: p });
            },
        }
        i = i + 1;
    }
    Some(out)
}

/// The numerators `nums` as rationals over the one denominator `den`.
fn rats_with_den(nums: &Vec<i128>, den: i128) -> (r: Vec<Rat>)
    ensures
        r@.len() == nums@.len(),
        forall|i: int| 0 <= i < nums@.len() ==> rat_is(#[trigger] r@[i]@, nums@[i] as int, den as int),
{
    let mut out: Vec<Rat> = Vec::new();
    let mut i: usize = 0;
    while i < nums.len()
        invariant
            i <= nums.len(),
            out@.len() == i,
            forall|j: int| 0 <= j < i ==> rat_is(#[trigger] out@[j]@, nums@[j] as int, den as int),
        decreases nums.len() - i,
    {
        out.push(Rat { num: nums[i], den });
        i = i + 1;
    }
    out
}

/// The products `a[i]*b[i]` as rationals over the one denominator `den`.
fn prod_rats(a: &Vec<i128>, b: &Vec<i128>, den: i128) -> (r: Vec<Rat>)
    requires
        a@.len() == b@.len(),
        forall|i: int| 0 <= i < a@.len() ==> #[trigger] prod_ok(ints(a@), ints(b@), i),
    ensures
        r@.len() == a@.len(),
        forall|i: int| 0 <= i < a@.len() ==> rat_is(
            #[trigger] r@[i]@,
            a@[i] as int * b@[i] as int,
            den as int,
        ),
{
    let mut out: Vec<Rat> = Vec::new();
    let mut i: usize = 0;
    while i < a.len()
        invariant
            i <= a.len() == b@.len(),
            forall|k: int| 0 <= k < a@.len() ==> #[trigger] prod_ok(ints(a@), ints(b@), k),
            out@.len() == i,
            forall|j: int| 0 <= j < i ==> rat_is(
                #[trigger] out@[j]@,
                a@[j] as int * b@[j] as int,
                den as int,
            ),
        decreases a.len() - i,
    {
        proof {
            assert(prod_ok(ints(a@), ints(b@), i as int));
            assert(ints(a@)[i as int] == a@[i as int] as int);
            assert(ints(b@)[i as int] == b@[i as int] as int);
        }
        let p: i128 = a[i] * b[i];
        out.push(Rat { num: p, den });
        i = i + 1;
    }
    out
}

/// The sample with the roles of x and y exchanged on every observation.
pub open spec fn swapped(s: Seq<ObsV>) -> Seq<ObsV> {
    s.map(|i: int, o: ObsV| ObsV { x: o.y, y: o.x })
}

/// Exchanges the roles of x and y across the whole sample.
pub fn swap_xy(sample: &Sample) -> (r: Sample)
    ensures
        r@ == swapped(sample@),
{
    let mut out: Vec<crate::ingest::Observation> = Vec::new();
    let mut i: usize = 0;
    while i < sample.obs.len()
        invariant
            i <= sample.obs.len(),
            out@.len() == i,
            forall|j: int| 0 <= j < i ==> out@[j]@ == (ObsV {
                x: sample@[j].y,
                y: sample@[j].x,
            }),
        decreases sample.obs.len() - i,
    {
        let o = sample.obs[i];
        out.push(crate::ingest::Observation { x: o.y, y: o.x });
        i = i + 1;
    }
    let r = Sample { obs: out };
    proof {
        assert(r@ =~= swapped(sample@));
    }
    r
}

/// Computes the statistics and the Pearson coefficient of the sample,
/// exactly. Succeeds if and only if every exact intermediate value fits in
/// an `i128`; on success every returned value is pinned to the sample's
/// exact mathematical statistics.
pub fn pearson_coefficient(sample: &Sample) -> (r: Option<Statistics>)
    ensures
        r is Some <==> stats_fit(sample@),
        r matches Some(st) ==> stats_match(st, sample@),
{
    let ghost s = sample@;
    let xs = xs_of(sample);
    let ys = ys_of(sample);
    let xv = match value_rats(&xs) {
        None => {
            return None;
        },
        Some(t) => t,
    };
    let yv = match value_rats(&ys) {
        None => {
            return None;
        },
        Some(t) => t,
    };
    let ax = match align(&xs) {
        None => {
            return None;
        },
        Some(t) => t,
    };
    let ay = match align(&ys) {
        None => {
            return None;
        },
        Some(t) => t,
    };
    proof {
        assert(ints(ax@) == aligned(xdec(s)));
        assert(ints(ay@) == aligned(ydec(s)));
    }
    let tx = match sum_vec(&ax) {
        None => {
            return None;
        },
        Some(t) => t,
    };
    let ty = match sum_vec(&ay) {
        None => {
            return None;
        },
        Some(t) => t,
    };
    let u = match deviations_vec(&ax, tx) {
        None => {
            return None;
        },
        Some(t) => t,
    };
    let v = match deviations_vec(&ay, ty) {
        None => {
            return None;
        },
        Some(t) => t,
    };
    proof {
        assert(ints(u@) == ux(s));
        assert(ints(v@) == uy(s));
        assert(u@.len() == s.len() && v@.len() == s.len());
    }
    let suv = match dot_vec(&u, &v) {
        None => {
            return None;
        },
        Some(t) => t,
    };
    let suu = match dot_vec(&u, &u) {
        None => {
            return None;
        },
        Some(t) => t,
    };
    let svv = match dot_vec(&v, &v) {
        None => {
            return None;
        },
        Some(t) => t,
    };
    let n: usize = sample.obs.len();
    if n == 0 {
        let st = Statistics {
            x_values: xv,
            y_values: yv,
            mean_x: None,
            mean_y: None,
            deviation_x: rats_with_den(&u, 1),
            deviation_y: rats_with_den(&v, 1),
            deviation_squared_x: prod_rats(&u, &u, 1),
            deviation_squared_y: prod_rats(&v, &v, 1),
            product_deviation_scores: prod_rats(&u, &v, 1),
            pearson_coefficient: Coefficient::Undefined,
        };
        proof {
            assert(s.len() == 0);
            assert(ux(s).len() == 0 && uy(s).len() == 0);
            assert(s_xx(s) == 0 && s_yy(s) == 0);
        }
        return Some(st);
    }
    let sx = max_scale_exec(&xs);
    let sy = max_scale_exec(&ys);
    let px: i128 = match pow10_i128(sx) {
        Some(p) => p,
        None => {
            proof {
                lemma_max_scale_attained(xdec(s));
                let i = choose|i: int|
                    0 <= i < xdec(s).len() && xdec(s)[i].scale == max_scale(xdec(s));
                assert(den_ok(xdec(s), i));
                assert(false);
            }
            0
        },
    };
    let py: i128 = match pow10_i128(sy) {
        Some(p) => p,
        None => {
            proof {
                lemma_max_scale_attained(ydec(s));
                let i = choose|i: int|
                    0 <= i < ydec(s).len() && ydec(s)[i].scale == max_scale(ydec(s));
                assert(den_ok(ydec(s), i));
                assert(false);
            }
            0
        },
    };
    let n128: i128 = n as i128;
    let dx = match n128.checked_mul(px) {
        None => {
            return None;
        },
        Some(t) => t,
    };
    let dy = match n128.checked_mul(py) {
        None => {
            return None;
        },
        Some(t) => t,
    };
    let dx2 = match dx.checked_mul(dx) {
        None => {
            return None;
        },
        Some(t) => t,
    };
    let dy2 = match dy.checked_mul(dy) {
        None => {
            return None;
        },
        Some(t) => t,
    };
    let dxy = match dx.checked_mul(dy) {
        None => {
            return None;
        },
        Some(t) => t,
    };
    let coeff = if suu > 0 && svv > 0 {
        Coefficient::Defined { numerator: suv, sum_sq_x: suu, sum_sq_y: svv }
    } else {
        Coefficient::Undefined
    };
    let st = Statistics {
        x_values: xv,
        y_values: yv,
        mean_x: Some(Rat { num: tx, den: dx }),
        mean_y: Some(Rat { num: ty, den: dy }),
        deviation_x: rats_with_den(&u, dx),
        deviation_y: rats_with_den(&v, dy),
        deviation_squared_x: prod_rats(&u, &u, dx2),
        deviation_squared_y: prod_rats(&v, &v, dy2),
        product_deviation_scores: prod_rats(&u, &v, dxy),
        pearson_coefficient: coeff,
    };
    proof {
        let nn = s.len() as int;
        assert(nn == n as int);
        assert(xs@.len() == nn && ys@.len() == nn);
        assert(sx as nat == max_scale(xdec(s)) && sy as nat == max_scale(ydec(s)));
        assert(dx as int == nn * pow10(max_scale(xdec(s))));
        assert(dy as int == nn * pow10(max_scale(ydec(s))));
        assert(dx2 as int == dx as int * dx as int);
        assert(dy2 as int == dy as int * dy as int);
        assert(dxy as int == dx as int * dy as int);
        assert forall|i: int| 0 <= i < nn implies rat_is(
            #[trigger] st.x_values@[i]@,
            s[i].x.mant,
            pow10(s[i].x.scale),
        ) by {
            assert(dviews(xs@)[i] == xs@[i]@);
            assert(xdec(s)[i] == s[i].x);
            assert(rat_is(st.x_values@[i]@, xs@[i]@.mant, pow10(xs@[i]@.scale)));
        }
        assert forall|i: int| 0 <= i < nn implies rat_is(
            #[trigger] st.y_values@[i]@,
            s[i].y.mant,
            pow10(s[i].y.scale),
        ) by {
            assert(dviews(ys@)[i] == ys@[i]@);
            assert(ydec(s)[i] == s[i].y);
            assert(rat_is(st.y_values@[i]@, ys@[i]@.mant, pow10(ys@[i]@.scale)));
        }
        assert forall|i: int| 0 <= i < nn implies rat_is(
            #[trigger] st.deviation_x@[i]@,
            ux(s)[i],
            nn * pow10(max_scale(xdec(s))),
        ) by {
            assert(ints(u@)[i] == u@[i] as int);
            assert(rat_is(st.deviation_x@[i]@, u@[i] as int, dx as int));
        }
        assert forall|i: int| 0 <= i < nn implies rat_is(
            #[trigger] st.deviation_y@[i]@,
            uy(s)[i],
            nn * pow10(max_scale(ydec(s))),
        ) by {
            assert(ints(v@)[i] == v@[i] as int);
            assert(rat_is(st.deviation_y@[i]@, v@[i] as int, dy as int));
        }
        assert forall|i: int| 0 <= i < nn implies rat_is(
            #[trigger] st.deviation_squared_x@[i]@,
            ux(s)[i] * ux(s)[i],
            (nn * pow10(max_scale(xdec(s)))) * (nn * pow10(max_scale(xdec(s)))),
        ) by {
            assert(ints(u@)[i] == u@[i] as int);
            assert(rat_is(st.deviation_squared_x@[i]@, u@[i] as int * u@[i] as int, dx2 as int));
        }
        assert forall|i: int| 0 <= i < nn implies rat_is(
            #[trigger] st.deviation_squared_y@[i]@,
            uy(s)[i] * uy(s)[i],
            (nn * pow10(max_scale(ydec(s)))) * (nn * pow10(max_scale(ydec(s)))),
        ) by {
            assert(ints(v@)[i] == v@[i] as int);
            assert(rat_is(st.deviation_squared_y@[i]@, v@[i] as int * v@[i] as int, dy2 as int));
        }
        assert forall|i: int| 0 <= i < nn implies rat_is(
            #[trigger] st.product_deviation_scores@[i]@,
            ux(s)[i] * uy(s)[i],
            (nn * pow10(max_scale(xdec(s)))) * (nn * pow10(max_scale(ydec(s)))),
        ) by {
            assert(ints(u@)[i] == u@[i] as int);
            assert(ints(v@)[i] == v@[i] as int);
            assert(rat_is(st.product_deviation_scores@[i]@, u@[i] as int * v@[i] as int, dxy as int));
        }
        assert(suv as int == s_xy(s));
        assert(suu as int == s_xx(s));
        assert(svv as int == s_yy(s));
        assert(tx as int == isum(aligned(xdec(s))));
        assert(ty as int == isum(aligned(ydec(s))));
        assert(stats_match(st, s));
        assert(stats_fit(s));
    }
    Some(st)
}

} // verus!
