//! Derivation of the integer bucket key from a performance split.
//!
//! A map's aim ratio is `aim / (aim + speed)`, a rational in `[0, 1]`. On the
//! percent scale it is snapped down to the nearest multiple of the grouping
//! precision and truncated to an integer: `floor(ratio * 100 / p) * p`. The
//! precision `p` arrives in thousandths of a percent point, and the aim and
//! speed values in millionths of a performance point, so everything here is
//! exact integer arithmetic.

use vstd::prelude::*;

verus! {

use vstd::arithmetic::div_mod::lemma_fundamental_div_mod;
use vstd::arithmetic::div_mod::lemma_div_pos_is_pos;
use vstd::arithmetic::div_mod::lemma_mod_bound;
use vstd::arithmetic::div_mod::lemma_div_is_ordered;

/// `floor((100 * aim / (aim + speed)) / (precision_milli / 1000))`: which
/// multiple of the precision the percent-scale aim ratio snaps down to.
pub open spec fn ratio_index(aim: int, speed: int, precision_milli: int) -> int {
    (100_000 * aim) / ((aim + speed) * precision_milli)
}

/// The bucket key: `floor(ratio_percent / p) * p`, truncated to an integer.
/// `ratio_index * precision_milli` is that multiple in thousandths of a
/// percent point; dividing by 1000 truncates it to whole percent points.
pub open spec fn bucket_key_spec(aim: int, speed: int, precision_milli: int) -> int {
    (ratio_index(aim, speed, precision_milli) * precision_milli) / 1000
}

/// For every precision `p = pn / pd > 0` and every ratio `r = rn / rd >= 0`,
/// the snap index `q = floor(r / p)` is non-negative and the snapped value
/// `q * p` (by construction an integer multiple of `p`) satisfies
/// `q * p <= r < q * p + p`. Both inequalities are stated cross-multiplied
/// by the positive denominators `rd` and `pd`.
pub proof fn lemma_bucket_key_bounds(rn: int, rd: int, pn: int, pd: int)
    requires
        0 <= rn,
        rd > 0,
        pn > 0,
        pd > 0,
    ensures
        ({
            let q = (rn * pd) / (rd * pn);
            &&& 0 <= q
            &&& q * (pn * rd) <= rn * pd
            &&& rn * pd < (q + 1) * (pn * rd)
        }),
{
    let x = rn * pd;
    let d = rd * pn;
    let q = x / d;
    assert(x >= 0 && d > 0) by (nonlinear_arith)
        requires
            0 <= rn,
            rd > 0,
            pn > 0,
            pd > 0,
            x == rn * pd,
            d == rd * pn,
    ;
    lemma_div_pos_is_pos(x, d);
    lemma_fundamental_div_mod(x, d);
    lemma_mod_bound(x, d);
    assert(q * (pn * rd) == d * q && (q + 1) * (pn * rd) == d * q + d) by (nonlinear_arith)
        requires
            d == rd * pn,
            q == x / d,
    ;
}

/// The bucket key of a non-degenerate split always lands in `[0, 100]`:
/// the percent-scale ratio lies in `[0, 100]`, the snapped value is at most
/// the ratio, and truncation can only shrink it further.
pub proof fn lemma_bucket_key_spec_range(aim: int, speed: int, precision_milli: int)
    requires
        0 <= aim,
        0 <= speed,
        aim + speed > 0,
        precision_milli > 0,
    ensures
        0 <= bucket_key_spec(aim, speed, precision_milli) <= 100,
        0 <= ratio_index(aim, speed, precision_milli),
{
    let total = aim + speed;
    let p = precision_milli;
    lemma_bucket_key_bounds(100 * aim, total, p, 1000);
    let q = (100 * aim * 1000) / (total * p);
    assert(100 * aim * 1000 == 100_000 * aim);
    assert(q == ratio_index(aim, speed, p));
    // q * (p * total) <= 100 * aim * 1000 <= 100_000 * total, and total >= 1,
    // so q * p <= 100_000.
    assert(q * (p * total) <= 100_000 * aim);
    assert(100_000 * aim <= 100_000 * total) by (nonlinear_arith)
        requires
            0 <= aim,
            0 <= speed,
            total == aim + speed,
    ;
    assert(q * p <= 100_000) by (nonlinear_arith)
        requires
            q * (p * total) <= 100_000 * total,
            total >= 1,
            0 <= q,
            p >= 1,
    ;
    assert(0 <= q * p) by (nonlinear_arith)
        requires
            0 <= q,
            p >= 1,
    ;
    lemma_div_is_ordered(0, q * p, 1000);
    lemma_div_is_ordered(q * p, 100_000, 1000);
}

/// Computes the bucket key of a performance split. `aim_micro` and
/// `speed_micro` are the two performance components in millionths of a point;
/// `precision_milli` is the grouping precision in thousandths of a percent
/// point. The split must not be degenerate: the caller skips maps whose two
/// components are both zero, since no ratio exists for them.
pub fn bucket_key(aim_micro: u64, speed_micro: u64, precision_milli: u32) -> (key: u32)
    requires
        precision_milli > 0,
        aim_micro + speed_micro > 0,
    ensures
        key == bucket_key_spec(aim_micro as int, speed_micro as int, precision_milli as int),
        key <= 100,
{
    let total: u128 = aim_micro as u128 + speed_micro as u128;
    let p: u128 = precision_milli as u128;
    proof {
        assert(total * p <= u128::MAX) by (nonlinear_arith)
            requires
                1 <= total <= u64::MAX as u128 + u64::MAX as u128,
                1 <= p <= u32::MAX as u128,
        ;
        assert(total * p >= 1) by (nonlinear_arith)
            requires
                total >= 1,
                p >= 1,
        ;
    }
    let denom: u128 = total * p;
    let num: u128 = 100_000u128 * (aim_micro as u128);
    let q: u128 = num / denom;
    proof {
        lemma_bucket_key_spec_range(aim_micro as int, speed_micro as int, precision_milli as int);
        assert(q == ratio_index(aim_micro as int, speed_micro as int, precision_milli as int));
        lemma_fundamental_div_mod(num as int, denom as int);
        lemma_mod_bound(num as int, denom as int);
        // q * denom <= num = 100_000 * aim <= 100_000 * total, so q * p <= 100_000.
        assert(q * p <= 100_000) by (nonlinear_arith)
            requires
                (denom as int) * (q as int) <= 100_000 * (aim_micro as int),
                denom == total * p,
                aim_micro as int <= total as int,
                total >= 1,
                p >= 1,
                q >= 0,
        ;
    }
    let scaled: u128 = q * p;
    let key128: u128 = scaled / 1000;
    proof {
        lemma_div_is_ordered(scaled as int, 100_000, 1000);
    }
    key128 as u32
}

} // verus!
