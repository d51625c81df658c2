//! The escape-time kernel.
//!
//! For a point `c` of the complex plane the orbit starts at `z = 0` and moves
//! by `z <- z^2 + c`. A step is *inside* when `|z|^2 < 4` in the arithmetic of
//! the backend. The kernel counts, for every lane of a group, the inside steps
//! that come before the first step that is not inside, up to an iteration
//! cap: a lane that reaches the cap is `Bounded`, one that leaves earlier is
//! `Unbounded` with the number of the step at which it left.
use crate::decimal::Decimal;
use crate::decimal::DecimalValue;
use crate::types::ManCount;
use crate::types::ManMask;
use crate::types::ManType;
use vstd::prelude::*;

verus! {

/// Outcome of the iteration for one point.
#[derive(Clone, Copy, Debug, PartialEq, Eq, Structural)]
pub enum Bound {
    /// The orbit stayed inside for as many steps as the cap allows.
    Bounded,
    /// The orbit was first found outside at the step of this number.
    Unbounded(u32),
}

/// Iteration cap and working precision of one frame.
#[derive(Clone, Copy, Debug, PartialEq, Eq, Structural)]
pub struct BoundsSettings {
    /// Most steps taken for a point.
    pub limit: u32,
    /// Precision handed to every operation of the backend; for the decimal
    /// backend, the number of fractional digits kept.
    pub precision: u32,
}

impl BoundsSettings {
    pub fn new(limit: u32, precision: u32) -> (r: BoundsSettings)
        ensures
            r.limit == limit,
            r.precision == precision,
    {
        BoundsSettings { limit, precision }
    }
}

/// The escape threshold, the square of the radius 2.
pub open spec fn threshold() -> DecimalValue {
    DecimalValue { unscaled: 4, scale: 0 }
}

/// One step of the recurrence: `z^2 + c`, the imaginary part as the doubled
/// product `re*im + re*im`.
pub open spec fn advance<V: ManType>(
    z: (V::Elem, V::Elem),
    c: (V::Elem, V::Elem),
    precision: nat,
) -> (V::Elem, V::Elem) {
    let re2 = V::elem_times(z.0, z.0, precision);
    let im2 = V::elem_times(z.1, z.1, precision);
    let reim = V::elem_times(z.0, z.1, precision);
    (
        V::elem_plus(V::elem_minus(re2, im2, precision), c.0, precision),
        V::elem_plus(V::elem_plus(reim, reim, precision), c.1, precision),
    )
}

/// The orbit of `c` after `t` steps.
pub open spec fn orbit<V: ManType>(c: (V::Elem, V::Elem), precision: nat, t: nat) -> (
    V::Elem,
    V::Elem,
)
    decreases t,
{
    if t == 0 {
        (V::elem_zero(precision), V::elem_zero(precision))
    } else {
        advance::<V>(orbit::<V>(c, precision, (t - 1) as nat), c, precision)
    }
}

/// Whether `|z|^2 < 4` in the arithmetic of the backend.
pub open spec fn inside<V: ManType>(z: (V::Elem, V::Elem), precision: nat) -> bool {
    V::elem_lt(
        V::elem_plus(
            V::elem_times(z.0, z.0, precision),
            V::elem_times(z.1, z.1, precision),
            precision,
        ),
        V::elem_new(threshold(), precision),
    )
}

/// Number of steps `0, 1, ..` below `cap` that the orbit of `c` is inside
/// before the first one at which it is not.
pub open spec fn escape_count<V: ManType>(c: (V::Elem, V::Elem), precision: nat, cap: nat) -> nat
    decreases cap,
{
    if cap == 0 {
        0
    } else {
        let before = escape_count::<V>(c, precision, (cap - 1) as nat);
        if before == cap - 1 && inside::<V>(orbit::<V>(c, precision, (cap - 1) as nat), precision) {
            cap
        } else {
            before
        }
    }
}

/// The classification of `c` under the iteration cap `cap`.
pub open spec fn status<V: ManType>(c: (V::Elem, V::Elem), precision: nat, cap: nat) -> Bound {
    let n = escape_count::<V>(c, precision, cap);
    if n == cap {
        Bound::Bounded
    } else {
        Bound::Unbounded(n as u32)
    }
}

/// The count never passes the cap.
pub proof fn lemma_escape_count_bounded<V: ManType>(
    c: (V::Elem, V::Elem),
    precision: nat,
    cap: nat,
)
    ensures
        escape_count::<V>(c, precision, cap) <= cap,
    decreases cap,
{
    if cap > 0 {
        lemma_escape_count_bounded::<V>(c, precision, (cap - 1) as nat);
    }
}

/// Once an orbit has left, a larger cap changes nothing: the count is latched.
pub proof fn lemma_escape_count_latched<V: ManType>(
    c: (V::Elem, V::Elem),
    precision: nat,
    cap: nat,
    larger: nat,
)
    requires
        cap <= larger,
        escape_count::<V>(c, precision, cap) < cap,
    ensures
        escape_count::<V>(c, precision, larger) == escape_count::<V>(c, precision, cap),
    decreases larger,
{
    if cap < larger {
        lemma_escape_count_latched::<V>(c, precision, cap, (larger - 1) as nat);
    }
}

/// What the count means: every step before it is inside, and the step of
/// its number, if below the cap, is not.
pub proof fn lemma_escape_count_meaning<V: ManType>(
    c: (V::Elem, V::Elem),
    precision: nat,
    cap: nat,
)
    ensures
        forall|t: nat|
            t < escape_count::<V>(c, precision, cap) ==> inside::<V>(
                #[trigger] orbit::<V>(c, precision, t),
                precision,
            ),
        escape_count::<V>(c, precision, cap) < cap ==> !inside::<V>(
            orbit::<V>(c, precision, escape_count::<V>(c, precision, cap)),
            precision,
        ),
    decreases cap,
{
    if cap > 0 {
        lemma_escape_count_meaning::<V>(c, precision, (cap - 1) as nat);
        lemma_escape_count_bounded::<V>(c, precision, (cap - 1) as nat);
    }
}

/// A point is `Bounded` exactly when every step below the cap is inside;
/// it is `Unbounded(n)` exactly when `n` is below the cap, step `n` is not
/// inside and every earlier step is.
pub proof fn lemma_status_meaning<V: ManType>(c: (V::Elem, V::Elem), precision: nat, cap: nat)
    requires
        cap <= u32::MAX,
    ensures
        status::<V>(c, precision, cap) == Bound::Bounded <==> forall|t: nat|
            t < cap ==> inside::<V>(#[trigger] orbit::<V>(c, precision, t), precision),
        forall|n: u32|
            status::<V>(c, precision, cap) == Bound::Unbounded(n) <==> {
                &&& n < cap
                &&& !inside::<V>(orbit::<V>(c, precision, n as nat), precision)
                &&& forall|t: nat|
                    t < n ==> inside::<V>(#[trigger] orbit::<V>(c, precision, t), precision)
            },
{
    lemma_escape_count_meaning::<V>(c, precision, cap);
    lemma_escape_count_bounded::<V>(c, precision, cap);
    let e = escape_count::<V>(c, precision, cap);
    assert forall|n: u32|
        {
            &&& n < cap
            &&& !inside::<V>(orbit::<V>(c, precision, n as nat), precision)
            &&& forall|t: nat|
                t < n ==> inside::<V>(#[trigger] orbit::<V>(c, precision, t), precision)
        } implies status::<V>(c, precision, cap) == Bound::Unbounded(n) by {
        if e < n {
            assert(inside::<V>(orbit::<V>(c, precision, e), precision));
        }
        if n < e {
            assert(inside::<V>(orbit::<V>(c, precision, n as nat), precision));
        }
    }
    if e < cap {
        assert(!inside::<V>(orbit::<V>(c, precision, e), precision));
    }
}

/// With a cap of zero every point is `Bounded`.
pub proof fn lemma_zero_cap_is_bounded<V: ManType>(c: (V::Elem, V::Elem), precision: nat)
    ensures
        status::<V>(c, precision, 0) == Bound::Bounded,
{
}

/// The count reported for an `Unbounded` point is below the cap.
pub proof fn lemma_unbounded_below_cap<V: ManType>(
    c: (V::Elem, V::Elem),
    precision: nat,
    cap: nat,
    n: u32,
)
    requires
        cap <= u32::MAX,
        status::<V>(c, precision, cap) == Bound::Unbounded(n),
    ensures
        n < cap,
{
    lemma_escape_count_bounded::<V>(c, precision, cap);
}

/// An escape is final: a point that is `Unbounded(n)` under one cap is
/// `Unbounded(n)` under every larger cap.
pub proof fn lemma_escape_is_final<V: ManType>(
    c: (V::Elem, V::Elem),
    precision: nat,
    cap: nat,
    larger: nat,
    n: u32,
)
    requires
        cap <= larger <= u32::MAX,
        status::<V>(c, precision, cap) == Bound::Unbounded(n),
    ensures
        status::<V>(c, precision, larger) == Bound::Unbounded(n),
{
    lemma_escape_count_bounded::<V>(c, precision, cap);
    lemma_escape_count_latched::<V>(c, precision, cap, larger);
}

/// Whether two backends compute the same on single numbers: their zeros and
/// thresholds are equal and their sums, differences, products and comparisons
/// agree on all arguments.
pub open spec fn same_arithmetic<V: ManType, W: ManType<Elem = V::Elem>>(precision: nat) -> bool {
    &&& V::elem_zero(precision) == W::elem_zero(precision)
    &&& V::elem_new(threshold(), precision) == W::elem_new(threshold(), precision)
    &&& forall|a: V::Elem, b: V::Elem|
        #[trigger] V::elem_plus(a, b, precision) == W::elem_plus(a, b, precision)
    &&& forall|a: V::Elem, b: V::Elem|
        #[trigger] V::elem_minus(a, b, precision) == W::elem_minus(a, b, precision)
    &&& forall|a: V::Elem, b: V::Elem|
        #[trigger] V::elem_times(a, b, precision) == W::elem_times(a, b, precision)
    &&& forall|a: V::Elem, b: V::Elem| #[trigger] V::elem_lt(a, b) == W::elem_lt(a, b)
}

proof fn lemma_same_arithmetic_same_orbit<V: ManType, W: ManType<Elem = V::Elem>>(
    c: (V::Elem, V::Elem),
    precision: nat,
    t: nat,
)
    requires
        same_arithmetic::<V, W>(precision),
    ensures
        orbit::<V>(c, precision, t) == orbit::<W>(c, precision, t),
        inside::<V>(orbit::<V>(c, precision, t), precision) == inside::<W>(
            orbit::<W>(c, precision, t),
            precision,
        ),
    decreases t,
{
    if t > 0 {
        lemma_same_arithmetic_same_orbit::<V, W>(c, precision, (t - 1) as nat);
    }
}

/// Backends that compute the same on single numbers classify every point
/// alike, whatever the number of their lanes.
pub proof fn lemma_same_arithmetic_same_status<V: ManType, W: ManType<Elem = V::Elem>>(
    c: (V::Elem, V::Elem),
    precision: nat,
    cap: nat,
)
    requires
        same_arithmetic::<V, W>(precision),
    ensures
        escape_count::<V>(c, precision, cap) == escape_count::<W>(c, precision, cap),
        status::<V>(c, precision, cap) == status::<W>(c, precision, cap),
    decreases cap,
{
    if cap > 0 {
        lemma_same_arithmetic_same_status::<V, W>(c, precision, (cap - 1) as nat);
        lemma_same_arithmetic_same_orbit::<V, W>(c, precision, (cap - 1) as nat);
    }
}

/// The squared magnitude of `c` as the decimal backend computes it at
/// `precision` digits, in units of `10^(-precision)`: both coordinates are cut
/// to the precision, and so is each square.
pub open spec fn decimal_norm(c: (DecimalValue, DecimalValue), precision: nat) -> int {
    let unit = crate::decimal::pow10(precision) as int;
    let re = c.0.rescaled(precision as int).unscaled;
    let im = c.1.rescaled(precision as int).unscaled;
    (re * re) / unit + (im * im) / unit
}

/// In the decimal backend the orbit of a point with both coordinates zero
/// never moves.
pub proof fn lemma_decimal_orbit_of_origin(
    c: (DecimalValue, DecimalValue),
    precision: nat,
    t: nat,
)
    requires
        c.0.unscaled == 0,
        c.1.unscaled == 0,
    ensures
        orbit::<Decimal>(c, precision, t) == (
            DecimalValue { unscaled: 0, scale: precision as int },
            DecimalValue { unscaled: 0, scale: precision as int },
        ),
    decreases t,
{
    let p = precision as int;
    let zero = DecimalValue { unscaled: 0, scale: p };
    crate::decimal::lemma_rescaled_zero(DecimalValue { unscaled: 0, scale: 0 }, p);
    if t > 0 {
        lemma_decimal_orbit_of_origin(c, precision, (t - 1) as nat);
        crate::decimal::lemma_rescaled_zero(zero.times(zero), p);
        crate::decimal::lemma_rescaled_zero(zero, p);
        crate::decimal::lemma_rescaled_zero(c.0, p);
        crate::decimal::lemma_rescaled_zero(c.1, p);
        assert(zero.times_at(zero, precision) == zero);
        assert(zero.minus_at(zero, precision) == zero);
        assert(zero.plus_at(zero, precision) == zero);
        assert(zero.plus_at(c.0, precision) == zero);
        assert(zero.plus_at(c.1, precision) == zero);
    }
}

/// In the decimal backend the point at rest in the origin is inside.
pub proof fn lemma_decimal_origin_inside(precision: nat)
    ensures
        inside::<Decimal>(
            (
                DecimalValue { unscaled: 0, scale: precision as int },
                DecimalValue { unscaled: 0, scale: precision as int },
            ),
            precision,
        ),
{
    let p = precision as int;
    let zero = DecimalValue { unscaled: 0, scale: p };
    crate::decimal::lemma_rescaled_zero(zero.times(zero), p);
    crate::decimal::lemma_rescaled_zero(zero, p);
    crate::decimal::lemma_pow10_positive(precision);
    assert(zero.times_at(zero, precision) == zero);
    assert(zero.plus_at(zero, precision) == zero);
    let four = threshold().rescaled(p);
    assert(four.unscaled == 4 * crate::decimal::pow10(precision));
    crate::decimal::lemma_less_than_same_scale(zero, four);
    assert(zero.less_than(four));
}

/// In the decimal backend the origin is `Bounded` under every cap and at
/// every precision.
pub proof fn lemma_decimal_origin_is_bounded(
    c: (DecimalValue, DecimalValue),
    precision: nat,
    cap: nat,
)
    requires
        c.0.unscaled == 0,
        c.1.unscaled == 0,
    ensures
        escape_count::<Decimal>(c, precision, cap) == cap,
        status::<Decimal>(c, precision, cap) == Bound::Bounded,
    decreases cap,
{
    if cap > 0 {
        lemma_decimal_origin_is_bounded(c, precision, (cap - 1) as nat);
        lemma_decimal_orbit_of_origin(c, precision, (cap - 1) as nat);
        lemma_decimal_origin_inside(precision);
    }
}

/// In the decimal backend a point whose squared magnitude, as computed at the
/// working precision, is at least 4 is found outside at step 1: under any cap
/// of at least 2 it is `Unbounded(1)`.
pub proof fn lemma_decimal_outside_escapes_at_once(
    c: (DecimalValue, DecimalValue),
    precision: nat,
    cap: nat,
)
    requires
        2 <= cap,
        decimal_norm(c, precision) >= 4 * crate::decimal::pow10(precision),
    ensures
        status::<Decimal>(c, precision, cap) == Bound::Unbounded(1),
{
    let p = precision as int;
    let unit = crate::decimal::pow10(precision) as int;
    let zero = DecimalValue { unscaled: 0, scale: p };
    let re = c.0.rescaled(p);
    let im = c.1.rescaled(p);
    crate::decimal::lemma_pow10_positive(precision);
    crate::decimal::lemma_rescaled_zero(DecimalValue { unscaled: 0, scale: 0 }, p);
    crate::decimal::lemma_rescaled_zero(zero.times(zero), p);
    crate::decimal::lemma_rescaled_zero(zero, p);
    lemma_decimal_origin_inside(precision);
    assert(crate::decimal::pow10(0) == 1);
    // step 0 is inside
    assert(orbit::<Decimal>(c, precision, 0) == (zero, zero));
    assert(escape_count::<Decimal>(c, precision, 0) == 0);
    assert(escape_count::<Decimal>(c, precision, 1) == 1);
    // after one step the orbit is at `c`, cut to the precision
    assert(zero.times_at(zero, precision) == zero);
    assert(zero.minus_at(zero, precision) == zero);
    assert(zero.plus_at(zero, precision) == zero);
    assert(zero.plus_at(c.0, precision) == re);
    assert(zero.plus_at(c.1, precision) == im);
    assert(orbit::<Decimal>(c, precision, 1) == advance::<Decimal>(
        orbit::<Decimal>(c, precision, 0),
        c,
        precision,
    ));
    assert(orbit::<Decimal>(c, precision, 1) == (re, im));
    // and its squared magnitude is the coarse norm
    lemma_decimal_square(re, precision);
    lemma_decimal_square(im, precision);
    let re2 = re.times_at(re, precision);
    let im2 = im.times_at(im, precision);
    crate::decimal::lemma_rescaled_same(re2);
    crate::decimal::lemma_rescaled_same(im2);
    let size = re2.plus_at(im2, precision);
    assert(size.unscaled == decimal_norm(c, precision));
    assert(size.scale == p);
    let four = threshold().rescaled(p);
    assert(four.unscaled == 4 * unit);
    crate::decimal::lemma_less_than_same_scale(size, four);
    assert(!size.less_than(four));
    assert(!inside::<Decimal>((re, im), precision));
    assert(escape_count::<Decimal>(c, precision, 2) == 1);
    lemma_escape_count_latched::<Decimal>(c, precision, 2, cap);
}

/// The square of a number of `precision` digits, cut to `precision` digits.
proof fn lemma_decimal_square(value: DecimalValue, precision: nat)
    requires
        value.scale == precision,
    ensures
        value.times_at(value, precision) == (DecimalValue {
            unscaled: (value.unscaled * value.unscaled) / (crate::decimal::pow10(precision) as int),
            scale: precision as int,
        }),
{
    let u = value.unscaled;
    let unit = crate::decimal::pow10(precision) as int;
    crate::decimal::lemma_pow10_positive(precision);
    assert(u * u >= 0) by (nonlinear_arith);
    if precision == 0 {
        assert(crate::decimal::pow10(0) == 1);
        assert((u * u) * 1 == u * u);
        assert((u * u) / 1 == u * u);
    }
}

/// Every point of squared magnitude at least `4 + 2 * 10^(-precision)`,
/// taken with its coordinates cut to the precision, has a computed squared
/// magnitude of at least 4: the two squares lose less than one unit each.
pub proof fn lemma_decimal_norm_of_far_point(c: (DecimalValue, DecimalValue), precision: nat)
    requires
        ({
            let unit = crate::decimal::pow10(precision) as int;
            let re = c.0.rescaled(precision as int).unscaled;
            let im = c.1.rescaled(precision as int).unscaled;
            re * re + im * im >= 4 * unit * unit + 2 * unit
        }),
    ensures
        decimal_norm(c, precision) >= 4 * crate::decimal::pow10(precision),
{
    let unit = crate::decimal::pow10(precision) as int;
    let re = c.0.rescaled(precision as int).unscaled;
    let im = c.1.rescaled(precision as int).unscaled;
    crate::decimal::lemma_pow10_positive(precision);
    let a = re * re;
    let b = im * im;
    assert(a / unit + b / unit >= 4 * unit) by (nonlinear_arith)
        requires
            unit > 0,
            a + b >= 4 * unit * unit + 2 * unit,
    ;
}

/// A point on or beyond the circle of radius 2 along either axis has a
/// computed squared magnitude of at least 4.
pub proof fn lemma_decimal_norm_of_axis_point(c: (DecimalValue, DecimalValue), precision: nat)
    requires
        ({
            let unit = crate::decimal::pow10(precision) as int;
            let re = c.0.rescaled(precision as int).unscaled;
            let im = c.1.rescaled(precision as int).unscaled;
            re * re >= 4 * unit * unit || im * im >= 4 * unit * unit
        }),
    ensures
        decimal_norm(c, precision) >= 4 * crate::decimal::pow10(precision),
{
    let unit = crate::decimal::pow10(precision) as int;
    let re = c.0.rescaled(precision as int).unscaled;
    let im = c.1.rescaled(precision as int).unscaled;
    crate::decimal::lemma_pow10_positive(precision);
    let a = re * re;
    let b = im * im;
    assert(a >= 0 && b >= 0) by (nonlinear_arith)
        requires
            a == re * re,
            b == im * im,
    ;
    assert(a / unit + b / unit >= 4 * unit) by (nonlinear_arith)
        requires
            unit > 0,
            a >= 0,
            b >= 0,
            a >= 4 * unit * unit || b >= 4 * unit * unit,
    ;
}

/// In the decimal backend every point that lies clearly outside the circle
/// of radius 2 is `Unbounded(1)` under any cap of at least 2: clearly outside
/// means that the squared magnitude of the point, its coordinates cut to the
/// precision, is at least `4 + 2 * 10^(-precision)`.
pub proof fn lemma_decimal_far_point_escapes_at_once(
    c: (DecimalValue, DecimalValue),
    precision: nat,
    cap: nat,
)
    requires
        2 <= cap,
        ({
            let unit = crate::decimal::pow10(precision) as int;
            let re = c.0.rescaled(precision as int).unscaled;
            let im = c.1.rescaled(precision as int).unscaled;
            re * re + im * im >= 4 * unit * unit + 2 * unit
        }),
    ensures
        status::<Decimal>(c, precision, cap) == Bound::Unbounded(1),
{
    lemma_decimal_norm_of_far_point(c, precision);
    lemma_decimal_outside_escapes_at_once(c, precision, cap);
}

/// Classifies the points of one lane group. Lane `i` of `xs` and `ys` holds
/// the real and the imaginary part of the point of lane `i`.
///
/// All lanes step together. A lane that is found outside stops counting for
/// good; the loop ends as soon as no lane is left inside, or at the cap.
pub fn check_bounded<V: ManType>(xs: &V, ys: &V, settings: BoundsSettings) -> (out: Vec<Bound>)
    requires
        xs.valid(),
        ys.valid(),
        xs.elems().len() == V::lanes_spec(),
        ys.elems().len() == V::lanes_spec(),
    ensures
        out.len() == V::lanes_spec(),
        forall|i: int|
            0 <= i < out.len() ==> out[i] == status::<V>(
                (xs.elems()[i], ys.elems()[i]),
                settings.precision as nat,
                settings.limit as nat,
            ),
{
    let cap = settings.limit;
    let precision = settings.precision;
    let lanes = V::len();
    let ghost p = precision as nat;
    let four = V::new(&Decimal::from_u32(4), precision);
    let mut re = V::zero(precision);
    let mut im = V::zero(precision);
    // `seen` counts the steps at which a lane was inside; a lane whose count
    // has kept up with the step number has been inside at every step so far.
    let mut seen = <V::TypeMask as ManMask>::count_zero();
    let mut count = <V::TypeMask as ManMask>::count_zero();
    let mut t: u32 = 0;
    let mut running = true;
    while running && t < cap
        invariant
            t <= cap,
            p == precision as nat,
            lanes == V::lanes_spec(),
            lanes == <V::TypeMask as ManMask>::lanes_spec(),
            xs.valid(),
            ys.valid(),
            xs.elems().len() == lanes,
            ys.elems().len() == lanes,
            four.valid(),
            four.elems() =~= Seq::new(lanes as nat, |i: int| V::elem_new(threshold(), p)),
            re.valid(),
            im.valid(),
            re.elems().len() == lanes,
            im.elems().len() == lanes,
            seen.counts().len() == lanes,
            count.counts().len() == lanes,
            running ==> forall|i: int|
                0 <= i < lanes ==> {
                    let c = (xs.elems()[i], ys.elems()[i]);
                    let e = escape_count::<V>(c, p, t as nat);
                    &&& #[trigger] count.counts()[i] == e
                    &&& seen.counts()[i] <= t
                    &&& (seen.counts()[i] == t <==> e == t)
                    &&& (e == t ==> (re.elems()[i], im.elems()[i]) == orbit::<V>(c, p, t as nat))
                },
            !running ==> forall|i: int|
                0 <= i < lanes ==> #[trigger] count.counts()[i] == escape_count::<V>(
                    (xs.elems()[i], ys.elems()[i]),
                    p,
                    cap as nat,
                ),
        decreases
                if running {
                    1 + cap - t
                } else {
                    0
                },
    {
        let re2 = re.times(&re, precision);
        let im2 = im.times(&im, precision);
        let size = re2.plus(&im2, precision);
        let within = size.check(&four);
        let step = within.to_count();
        proof {
            assert forall|i: int| 0 <= i < seen.counts().len() implies seen.counts()[i]
                + step.counts()[i] <= u32::MAX by {
                let e = escape_count::<V>((xs.elems()[i], ys.elems()[i]), p, t as nat);
                assert(count.counts()[i] == e);
                assert(seen.counts()[i] <= t);
                assert(step.counts()[i] <= 1);
            }
        }
        let seen_next = seen.plus(&step);
        let live = <V::TypeMask as ManMask>::equal(
            &seen_next,
            &<V::TypeMask as ManMask>::new_count(t + 1),
        );
        proof {
            assert forall|i: int| 0 <= i < lanes implies {
                let c = (xs.elems()[i], ys.elems()[i]);
                &&& within.bits()[i] == inside::<V>((re.elems()[i], im.elems()[i]), p)
                &&& #[trigger] live.bits()[i] == (escape_count::<V>(c, p, (t + 1) as nat) == t + 1)
            } by {
                let c = (xs.elems()[i], ys.elems()[i]);
                lemma_escape_count_bounded::<V>(c, p, t as nat);
                assert(count.counts()[i] == escape_count::<V>(c, p, t as nat));
            }
        }
        if !live.check() {
            proof {
                assert forall|i: int| 0 <= i < lanes implies #[trigger] count.counts()[i]
                    == escape_count::<V>((xs.elems()[i], ys.elems()[i]), p, cap as nat) by {
                    let c = (xs.elems()[i], ys.elems()[i]);
                    assert(!live.bits()[i]);
                    lemma_escape_count_bounded::<V>(c, p, (t + 1) as nat);
                    lemma_escape_count_latched::<V>(c, p, (t + 1) as nat, cap as nat);
                }
            }
            running = false;
        } else {
            let count_next = count.plus(&live.to_count());
            let reim = re.times(&im, precision);
            let re_next = re2.minus(&im2, precision).plus(xs, precision);
            let im_next = reim.plus(&reim, precision).plus(ys, precision);
            proof {
                assert forall|i: int| 0 <= i < lanes implies {
                    let c = (xs.elems()[i], ys.elems()[i]);
                    let e = escape_count::<V>(c, p, (t + 1) as nat);
                    &&& #[trigger] count_next.counts()[i] == e
                    &&& seen_next.counts()[i] <= t + 1
                    &&& (seen_next.counts()[i] == t + 1 <==> e == t + 1)
                    &&& (e == t + 1 ==> (re_next.elems()[i], im_next.elems()[i]) == orbit::<V>(
                        c,
                        p,
                        (t + 1) as nat,
                    ))
                } by {
                    let c = (xs.elems()[i], ys.elems()[i]);
                    lemma_escape_count_bounded::<V>(c, p, t as nat);
                    assert(count.counts()[i] == escape_count::<V>(c, p, t as nat));
                    assert(live.bits()[i] == (escape_count::<V>(c, p, (t + 1) as nat) == t + 1));
                }
            }
            count = count_next;
            seen = seen_next;
            re = re_next;
            im = im_next;
            t = t + 1;
        }
    }
    let mut out: Vec<Bound> = Vec::new();
    let mut i: usize = 0;
    while i < lanes
        invariant
            i <= lanes,
            lanes == V::lanes_spec(),
            xs.elems().len() == lanes,
            ys.elems().len() == lanes,
            count.counts().len() == lanes,
            out.len() == i,
            forall|j: int|
                0 <= j < lanes ==> #[trigger] count.counts()[j] == escape_count::<V>(
                    (xs.elems()[j], ys.elems()[j]),
                    settings.precision as nat,
                    settings.limit as nat,
                ),
            forall|j: int|
                0 <= j < i ==> out[j] == status::<V>(
                    (xs.elems()[j], ys.elems()[j]),
                    settings.precision as nat,
                    settings.limit as nat,
                ),
        decreases lanes - i,
    {
        let n = count.lane(i);
        assert(count.counts()[i as int] == n);
        if n == settings.limit {
            out.push(Bound::Bounded);
        } else {
            out.push(Bound::Unbounded(n));
        }
        i = i + 1;
    }
    out
}

} // verus!
