//! Percent change of a price against its baseline, in exact integer
//! arithmetic.

use vstd::arithmetic::div_mod::{
    lemma_fundamental_div_mod, lemma_fundamental_div_mod_converse, lemma_mod_bound,
};
use vstd::prelude::*;

verus! {

/// Hundredths of a percent in one whole: a change of 100% is 10,000.
pub const SCALE: u64 = 10_000;

/// The quotient `n / d` rounded up to a whole number.
pub open spec fn rounded_up(n: int, d: int) -> int
    recommends
        n >= 0,
        d > 0,
{
    (n + d - 1) / d
}

/// `rounded_up(n, d)` is the least whole number that is not below `n / d`.
pub proof fn lemma_rounded_up_bounds(n: int, d: int)
    requires
        n >= 0,
        d > 0,
    ensures
        (rounded_up(n, d) - 1) * d < n <= rounded_up(n, d) * d,
        rounded_up(n, d) >= 0,
        rounded_up(n, d) == 0 <==> n == 0,
{
    let m = rounded_up(n, d);
    lemma_fundamental_div_mod(n + d - 1, d);
    lemma_mod_bound(n + d - 1, d);
    assert(m * d == d * m) by (nonlinear_arith);
    assert((m - 1) * d == d * m - d) by (nonlinear_arith);
    if m <= -1 {
        assert(m * d <= -d) by (nonlinear_arith)
            requires
                m <= -1,
                d > 0,
        ;
    }
    if m == 0 {
        assert(m * d == 0) by (nonlinear_arith)
            requires
                m == 0,
        ;
    }
    if m >= 1 {
        assert((m - 1) * d >= 0) by (nonlinear_arith)
            requires
                m >= 1,
                d > 0,
        ;
    }
}

/// The percent change from `baseline` to `current`, in hundredths of a
/// percent: `(current - baseline) / baseline * 100`, and where that is no
/// whole number of hundredths, the next one away from zero. A gain and a
/// loss of the same size so differ in their sign only, and no change but
/// that of equal prices is held as zero.
pub open spec fn percent_change_of(baseline: int, current: int) -> int
    recommends
        baseline > 0,
{
    if current >= baseline {
        rounded_up((current - baseline) * (SCALE as int), baseline)
    } else {
        -rounded_up((baseline - current) * (SCALE as int), baseline)
    }
}

/// The percent change is within one hundredth of the exact change, on the
/// side away from zero: for `p = percent_change_of(baseline, current)`,
/// `(p - 1) / 10000 < (current - baseline) / baseline <= p / 10000` for a
/// gain and `p / 10000 <= (current - baseline) / baseline < (p + 1) / 10000`
/// for a loss.
pub proof fn lemma_percent_change_bounds(baseline: int, current: int)
    requires
        baseline > 0,
    ensures
        current >= baseline ==> (percent_change_of(baseline, current) - 1) * baseline < (current
            - baseline) * (SCALE as int) <= percent_change_of(baseline, current) * baseline,
        current < baseline ==> percent_change_of(baseline, current) * baseline <= (current
            - baseline) * (SCALE as int) < (percent_change_of(baseline, current) + 1) * baseline,
{
    let p = percent_change_of(baseline, current);
    if current >= baseline {
        lemma_rounded_up_bounds((current - baseline) * (SCALE as int), baseline);
    } else {
        let m = rounded_up((baseline - current) * (SCALE as int), baseline);
        lemma_rounded_up_bounds((baseline - current) * (SCALE as int), baseline);
        assert((current - baseline) * (SCALE as int) == -((baseline - current) * (SCALE as int)))
            by (nonlinear_arith);
        assert(p * baseline == -(m * baseline)) by (nonlinear_arith)
            requires
                p == -m,
        ;
        assert((p + 1) * baseline == -((m - 1) * baseline)) by (nonlinear_arith)
            requires
                p == -m,
        ;
    }
}

/// The percent change has the sign of the price change: it is zero for
/// equal prices only, positive for every gain and negative for every loss.
/// No price falls by more than all of its baseline, and a gain and a loss
/// of the same size have percent changes that differ in their sign only.
pub proof fn lemma_percent_change_sign(baseline: int, current: int)
    requires
        baseline > 0,
    ensures
        percent_change_of(baseline, current) == 0 <==> current == baseline,
        percent_change_of(baseline, current) > 0 <==> current > baseline,
        percent_change_of(baseline, current) < 0 <==> current < baseline,
        current >= 0 ==> percent_change_of(baseline, current) >= -(SCALE as int),
        percent_change_of(baseline, current) == -percent_change_of(
            baseline,
            baseline + (baseline - current),
        ),
{
    if current >= baseline {
        lemma_rounded_up_bounds((current - baseline) * (SCALE as int), baseline);
        assert((current - baseline) * (SCALE as int) == 0 <==> current == baseline)
            by (nonlinear_arith);
        assert((current - baseline) * (SCALE as int) >= 0) by (nonlinear_arith)
            requires
                current >= baseline,
        ;
    } else {
        let n = (baseline - current) * (SCALE as int);
        let m = rounded_up(n, baseline);
        lemma_rounded_up_bounds(n, baseline);
        assert(n > 0) by (nonlinear_arith)
            requires
                n == (baseline - current) * (SCALE as int),
                baseline > current,
        ;
        if current >= 0 && m > SCALE {
            assert(false) by (nonlinear_arith)
                requires
                    (m - 1) * baseline < n,
                    n == (baseline - current) * 10_000,
                    m >= 10_001,
                    current >= 0,
                    baseline > 0,
            {
                assert((m - 1) * baseline >= 10_000 * baseline);
            }
        }
    }
}

/// Computes the percent change from `baseline` to `current`.
pub fn percent_change(baseline: u64, current: u64) -> (change: i128)
    requires
        baseline > 0,
    ensures
        change == percent_change_of(baseline as int, current as int),
        change == 0 <==> current == baseline,
        change > 0 <==> current > baseline,
        change >= -(SCALE as int),
{
    let base: u128 = baseline as u128;
    let scale: u128 = SCALE as u128;
    let distance: u128 = if current >= baseline {
        (current - baseline) as u128
    } else {
        (baseline - current) as u128
    };
    assert(distance * scale == distance * 10_000) by (nonlinear_arith)
        requires
            scale == 10_000,
    ;
    let scaled: u128 = distance * scale;
    let q: u128 = scaled / base;
    let r: u128 = scaled % base;
    // A change that is no whole number of hundredths rounds away from zero.
    let size: u128 = if r == 0 {
        q
    } else {
        q + 1
    };
    proof {
        lemma_fundamental_div_mod(scaled as int, base as int);
        if r == 0 {
            assert(q * base == base * q) by (nonlinear_arith);
            lemma_fundamental_div_mod_converse(
                scaled + base - 1,
                base as int,
                q as int,
                base - 1,
            );
        } else {
            assert((q + 1) * base == base * q + base) by (nonlinear_arith);
            lemma_fundamental_div_mod_converse(
                scaled + base - 1,
                base as int,
                q + 1,
                r - 1,
            );
        }
        assert(size == rounded_up(scaled as int, base as int));
        lemma_percent_change_sign(baseline as int, current as int);
    }
    if current >= baseline {
        size as i128
    } else {
        -(size as i128)
    }
}

/// Whether the change from `b1` to `c1` is strictly lower than the change
/// from `b2` to `c2`: `(c1 - b1) / b1 < (c2 - b2) / b2`, multiplied out so
/// that no rounding takes part.
pub open spec fn change_below(b1: int, c1: int, b2: int, c2: int) -> bool
    recommends
        b1 > 0,
        b2 > 0,
{
    (c1 - b1) * b2 < (c2 - b2) * b1
}

/// Comparing changes is comparing the ratios `c1 / b1` and `c2 / b2`.
pub proof fn lemma_change_below_is_ratio_below(b1: int, c1: int, b2: int, c2: int)
    ensures
        change_below(b1, c1, b2, c2) <==> c1 * b2 < c2 * b1,
{
    assert((c1 - b1) * b2 == c1 * b2 - b1 * b2) by (nonlinear_arith);
    assert((c2 - b2) * b1 == c2 * b1 - b1 * b2) by (nonlinear_arith);
}

/// Decides `change_below` on prices.
pub fn falls_below(b1: u64, c1: u64, b2: u64, c2: u64) -> (below: bool)
    ensures
        below == change_below(b1 as int, c1 as int, b2 as int, c2 as int),
{
    proof {
        lemma_change_below_is_ratio_below(b1 as int, c1 as int, b2 as int, c2 as int);
        assert(c1 * b2 <= u64::MAX * u64::MAX) by (nonlinear_arith)
            requires
                c1 <= u64::MAX,
                b2 <= u64::MAX,
        ;
        assert(c2 * b1 <= u64::MAX * u64::MAX) by (nonlinear_arith)
            requires
                c2 <= u64::MAX,
                b1 <= u64::MAX,
        ;
    }
    (c1 as u128) * (b2 as u128) < (c2 as u128) * (b1 as u128)
}

/// No change is below itself, and of two changes at most one is below the
/// other.
pub proof fn lemma_change_below_asymmetric(b1: int, c1: int, b2: int, c2: int)
    ensures
        !change_below(b1, c1, b1, c1),
        !(change_below(b1, c1, b2, c2) && change_below(b2, c2, b1, c1)),
{
}

/// The changes of positive baselines are totally preordered: a change below
/// a second one is below every change that the second is not above.
pub proof fn lemma_change_below_chain(b1: int, c1: int, b2: int, c2: int, b3: int, c3: int)
    requires
        b1 > 0,
        b2 > 0,
        b3 > 0,
        change_below(b1, c1, b2, c2),
        !change_below(b3, c3, b2, c2),
    ensures
        change_below(b1, c1, b3, c3),
{
    lemma_change_below_is_ratio_below(b1, c1, b2, c2);
    lemma_change_below_is_ratio_below(b3, c3, b2, c2);
    lemma_change_below_is_ratio_below(b1, c1, b3, c3);
    assert(c1 * b3 < c3 * b1) by (nonlinear_arith)
        requires
            b1 > 0,
            b2 > 0,
            b3 > 0,
            c1 * b2 < c2 * b1,
            c3 * b2 >= c2 * b3,
    {
        assert((c1 * b2) * b3 < (c2 * b1) * b3);
        assert((c2 * b3) * b1 <= (c3 * b2) * b1);
        assert((c1 * b3) * b2 < (c3 * b1) * b2);
    }
}

/// Rounding keeps the order: a change that is not above another has a
/// percent change that is not above the other's.
pub proof fn lemma_percent_change_monotonic(b1: int, c1: int, b2: int, c2: int)
    requires
        b1 > 0,
        b2 > 0,
        !change_below(b2, c2, b1, c1),
    ensures
        percent_change_of(b1, c1) <= percent_change_of(b2, c2),
{
    let p = percent_change_of(b1, c1);
    let q = percent_change_of(b2, c2);
    let n1 = (c1 - b1) * (SCALE as int);
    let n2 = (c2 - b2) * (SCALE as int);
    lemma_percent_change_bounds(b1, c1);
    lemma_percent_change_bounds(b2, c2);
    lemma_percent_change_sign(b1, c1);
    lemma_percent_change_sign(b2, c2);
    assert(n1 * b2 <= n2 * b1) by (nonlinear_arith)
        requires
            (c2 - b2) * b1 >= (c1 - b1) * b2,
            n1 == (c1 - b1) * 10_000,
            n2 == (c2 - b2) * 10_000,
    ;
    if c1 >= b1 && c2 < b2 {
        // a gain is never below a loss
        assert(false) by (nonlinear_arith)
            requires
                b1 > 0,
                b2 > 0,
                c1 >= b1,
                c2 < b2,
                (c2 - b2) * b1 >= (c1 - b1) * b2,
        {
            assert((c2 - b2) * b1 < 0);
            assert((c1 - b1) * b2 >= 0);
        }
    } else if c1 >= b1 && p > q {
        // two gains, both rounded up
        assert(false) by (nonlinear_arith)
            requires
                b1 > 0,
                b2 > 0,
                p >= q + 1,
                (p - 1) * b1 < n1,
                n2 <= q * b2,
                n1 * b2 <= n2 * b1,
        {
            assert(((p - 1) * b1) * b2 < n1 * b2);
            assert(n2 * b1 <= (q * b2) * b1);
            assert((q * b2) * b1 <= ((p - 1) * b1) * b2);
        }
    } else if c1 < b1 && c2 < b2 && p > q {
        // two losses, both rounded down
        assert(false) by (nonlinear_arith)
            requires
                b1 > 0,
                b2 > 0,
                p >= q + 1,
                p * b1 <= n1,
                n2 < (q + 1) * b2,
                n1 * b2 <= n2 * b1,
        {
            assert((p * b1) * b2 <= n1 * b2);
            assert(n2 * b1 < ((q + 1) * b2) * b1);
            assert(((q + 1) * b2) * b1 <= (p * b1) * b2);
        }
    }
}

} // verus!
