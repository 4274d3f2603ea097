use crate::errors::UnstakeError;
use crate::rational::Rational;
use vstd::prelude::*;

verus! {

/// Order on exact fractions given as integer pairs, by cross multiplication.
/// Meaningful when both denominators are positive.
pub open spec fn frac_le(n1: int, d1: int, n2: int, d2: int) -> bool {
    n1 * d2 <= n2 * d1
}

/// The fee curve: maps the pool's remaining liquidity after a payout, and
/// the incoming position's value, to the fee ratio charged for immediate
/// liquidity.
#[derive(Clone, Copy, Debug)]
pub enum Fee {
    /// The same ratio whatever the pool's liquidity.
    Flat { ratio: Rational },
    /// Interpolates linearly between `max_fee_ratio` (at zero remaining
    /// liquidity after the payout) and `min_fee_ratio` (at or above
    /// `liquidity_threshold` remaining), penalizing a payout that drains
    /// the pool.
    LiquidityLinear {
        max_fee_ratio: Rational,
        min_fee_ratio: Rational,
        liquidity_threshold: u64,
    },
}

impl Fee {
    /// A fee configuration is valid when its ratios have positive
    /// denominators, lie within `[0, 1]`, and the minimum does not exceed
    /// the maximum.
    pub open spec fn wf(self) -> bool {
        match self {
            Fee::Flat { ratio } => ratio.wf() && ratio.le_one(),
            Fee::LiquidityLinear { max_fee_ratio, min_fee_ratio, liquidity_threshold } => {
                &&& max_fee_ratio.wf()
                &&& min_fee_ratio.wf()
                &&& min_fee_ratio.spec_le(max_fee_ratio)
                &&& max_fee_ratio.le_one()
            },
        }
    }

    /// The lowest ratio the curve can answer.
    pub open spec fn min_ratio(self) -> Rational {
        match self {
            Fee::Flat { ratio } => ratio,
            Fee::LiquidityLinear { min_fee_ratio, .. } => min_fee_ratio,
        }
    }

    /// The highest ratio the curve can answer.
    pub open spec fn max_ratio(self) -> Rational {
        match self {
            Fee::Flat { ratio } => ratio,
            Fee::LiquidityLinear { max_fee_ratio, .. } => max_fee_ratio,
        }
    }

    /// Numerator of the exact (unreduced) ratio the curve answers at
    /// remaining liquidity `liq`, as `price` computes it.
    pub open spec fn curve_num(self, liq: int) -> int {
        match self {
            Fee::Flat { ratio } => ratio.num as int,
            Fee::LiquidityLinear { max_fee_ratio: mx, min_fee_ratio: mn, liquidity_threshold: t } => {
                if liq >= t {
                    mn.num as int
                } else if liq == 0 {
                    mx.num as int
                } else {
                    mx.num * (mx.den * mn.den * t) - (mx.num * mn.den - mn.num * mx.den) * liq * mx.den
                }
            },
        }
    }

    /// Denominator of the exact (unreduced) ratio the curve answers at
    /// remaining liquidity `liq`, as `price` computes it.
    pub open spec fn curve_den(self, liq: int) -> int {
        match self {
            Fee::Flat { ratio } => ratio.den as int,
            Fee::LiquidityLinear { max_fee_ratio: mx, min_fee_ratio: mn, liquidity_threshold: t } => {
                if liq >= t {
                    mn.den as int
                } else if liq == 0 {
                    mx.den as int
                } else {
                    mx.den * (mx.den * mn.den * t)
                }
            },
        }
    }

    /// Whether every intermediate of the curve evaluation at `liq` fits a
    /// machine word, so that `price` answers `Ok` rather than `Overflow`.
    pub open spec fn price_fits(self, liq: int) -> bool {
        match self {
            Fee::Flat { .. } => true,
            Fee::LiquidityLinear { max_fee_ratio: mx, min_fee_ratio: mn, liquidity_threshold: t } => {
                if liq >= t || liq == 0 {
                    true
                } else {
                    let dnum = mx.num * mn.den - mn.num * mx.den;
                    let dden = mx.den * mn.den;
                    let tnum = dnum * liq;
                    let tden = dden * t;
                    let rnum = mx.num * tden - tnum * mx.den;
                    let rden = mx.den * tden;
                    &&& dnum <= u64::MAX
                    &&& dden <= u64::MAX
                    &&& tnum <= u64::MAX
                    &&& tden <= u64::MAX
                    &&& rnum <= u64::MAX
                    &&& rden <= u64::MAX
                }
            },
        }
    }

    /// The fee charged for a position worth `pv` at remaining liquidity
    /// `liq`: the position's value times the curve's ratio, rounded up so
    /// that rounding always favors the pool.
    pub open spec fn fee_amount_at(self, liq: int, pv: u64) -> int {
        (pv * self.curve_num(liq) + self.curve_den(liq) - 1) / self.curve_den(liq)
    }

    /// Checks the configuration rules at configuration time.
    pub fn validate(&self) -> (r: Result<(), UnstakeError>)
        ensures
            r is Ok <==> self.wf(),
            r is Err ==> r == Err::<(), UnstakeError>(UnstakeError::InvalidFeeConfiguration),
    {
        match self {
            Fee::Flat { ratio } => {
                if ratio.den > 0 && ratio.num <= ratio.den {
                    Ok(())
                } else {
                    Err(UnstakeError::InvalidFeeConfiguration)
                }
            },
            Fee::LiquidityLinear { max_fee_ratio, min_fee_ratio, liquidity_threshold } => {
                if max_fee_ratio.den > 0 && min_fee_ratio.den > 0
                    && max_fee_ratio.num <= max_fee_ratio.den
                    && min_fee_ratio.le(max_fee_ratio) {
                    Ok(())
                } else {
                    Err(UnstakeError::InvalidFeeConfiguration)
                }
            },
        }
    }

    /// Prices an incoming position against the pool's current reserves.
    /// The curve is evaluated at the liquidity that would remain after the
    /// payout, `pool_reserves - position_value`. A position that cannot be
    /// fully paid out even before the fee is rejected, never partially
    /// filled.
    pub fn price(&self, pool_reserves: u64, position_value: u64) -> (r: Result<Rational, UnstakeError>)
        requires
            self.wf(),
        ensures
            position_value > pool_reserves
                <==> r == Err::<Rational, UnstakeError>(UnstakeError::InsufficientLiquidity),
            position_value <= pool_reserves && !self.price_fits(pool_reserves - position_value)
                <==> r == Err::<Rational, UnstakeError>(UnstakeError::Overflow),
            position_value <= pool_reserves && self.price_fits(pool_reserves - position_value)
                <==> r is Ok,
            r is Ok ==> ({
                let liq = pool_reserves - position_value;
                let rat = r->Ok_0;
                &&& rat.wf()
                &&& rat.le_one()
                &&& rat.num == self.curve_num(liq)
                &&& rat.den == self.curve_den(liq)
                &&& self.min_ratio().spec_le(rat)
                &&& rat.spec_le(self.max_ratio())
            }),
    {
        if position_value > pool_reserves {
            return Err(UnstakeError::InsufficientLiquidity);
        }
        let liq = pool_reserves - position_value;
        match self {
            Fee::Flat { ratio } => Ok(*ratio),
            Fee::LiquidityLinear { max_fee_ratio, min_fee_ratio, liquidity_threshold } => {
                if liq >= *liquidity_threshold {
                    proof {
                        lemma_ratio_order_le_one(
                            max_fee_ratio.num as int, max_fee_ratio.den as int,
                            min_fee_ratio.num as int, min_fee_ratio.den as int,
                        );
                    }
                    Ok(*min_fee_ratio)
                } else if liq == 0 {
                    Ok(*max_fee_ratio)
                } else {
                    let diff = match max_fee_ratio.checked_sub(min_fee_ratio) {
                        Some(d) => d,
                        None => { return Err(UnstakeError::Overflow); },
                    };
                    let frac = Rational { num: liq, den: *liquidity_threshold };
                    let term = match diff.checked_mul(&frac) {
                        Some(x) => x,
                        None => { return Err(UnstakeError::Overflow); },
                    };
                    proof {
                        lemma_interp_facts(
                            max_fee_ratio.num as int, max_fee_ratio.den as int,
                            min_fee_ratio.num as int, min_fee_ratio.den as int,
                            *liquidity_threshold as int, liq as int,
                        );
                    }
                    let res = match max_fee_ratio.checked_sub(&term) {
                        Some(x) => x,
                        None => { return Err(UnstakeError::Overflow); },
                    };
                    Ok(res)
                }
            },
        }
    }
}

/// A ratio below another ratio that is itself at most one is at most one.
pub proof fn lemma_ratio_order_le_one(mxn: int, mxd: int, mnn: int, mnd: int)
    by (nonlinear_arith)
    requires
        mxd > 0,
        mnd > 0,
        mnn * mxd <= mxn * mnd,
        mxn <= mxd,
        0 <= mnn,
    ensures
        mnn <= mnd,
{
}

/// The algebra of the linear interpolation: at `0 < liq < t` the exact
/// interpolated ratio is nonnegative, at most one, and lies between the
/// curve's minimum and maximum ratios.
pub proof fn lemma_interp_facts(mxn: int, mxd: int, mnn: int, mnd: int, t: int, liq: int)
    by (nonlinear_arith)
    requires
        mxd > 0,
        mnd > 0,
        0 <= mnn,
        0 <= mxn,
        mnn * mxd <= mxn * mnd,
        mxn <= mxd,
        0 < liq < t,
    ensures
        ({
            let tden = mxd * mnd * t;
            let rnum = mxn * tden - (mxn * mnd - mnn * mxd) * liq * mxd;
            let rden = mxd * tden;
            &&& rden > 0
            &&& 0 <= rnum
            &&& rnum <= rden
            &&& mnn * rden <= rnum * mnd
            &&& rnum * mxd <= mxn * rden
        }),
{
}

/// The curve's answer is always bounded between its minimum and maximum
/// ratios, and never exceeds one.
pub proof fn lemma_price_bounded(f: Fee, liq: int)
    requires
        f.wf(),
        0 <= liq,
    ensures
        f.curve_den(liq) > 0,
        0 <= f.curve_num(liq) <= f.curve_den(liq),
        frac_le(f.min_ratio().num as int, f.min_ratio().den as int, f.curve_num(liq), f.curve_den(liq)),
        frac_le(f.curve_num(liq), f.curve_den(liq), f.max_ratio().num as int, f.max_ratio().den as int),
{
    match f {
        Fee::Flat { ratio } => {},
        Fee::LiquidityLinear { max_fee_ratio: mx, min_fee_ratio: mn, liquidity_threshold: t } => {
            lemma_ratio_order_le_one(mx.num as int, mx.den as int, mn.num as int, mn.den as int);
            if liq >= t {
            } else if liq == 0 {
            } else {
                lemma_interp_facts(
                    mx.num as int, mx.den as int, mn.num as int, mn.den as int,
                    t as int, liq,
                );
            }
        },
    }
}

/// The curve is monotonically non-increasing in the remaining liquidity:
/// the more liquidity a payout would leave behind, the lower the fee ratio.
pub proof fn lemma_price_monotonic(f: Fee, liq1: int, liq2: int)
    requires
        f.wf(),
        0 <= liq1 <= liq2,
    ensures
        frac_le(f.curve_num(liq2), f.curve_den(liq2), f.curve_num(liq1), f.curve_den(liq1)),
{
    lemma_price_bounded(f, liq1);
    lemma_price_bounded(f, liq2);
    match f {
        Fee::Flat { ratio } => {},
        Fee::LiquidityLinear { max_fee_ratio: mx, min_fee_ratio: mn, liquidity_threshold: t } => {
            if liq1 >= t || liq2 == 0 {
                // both answers are the same endpoint ratio
            } else if liq2 >= t {
                // the answer at liq2 is the minimum, which bounds the answer at liq1 from below
            } else if liq1 == 0 {
                // the answer at liq1 is the maximum, which bounds the answer at liq2 from above
            } else {
                // both interpolate, over the same denominator
                lemma_interp_step(
                    mx.num as int, mx.den as int, mn.num as int, mn.den as int,
                    t as int, liq1, liq2,
                );
            }
        },
    }
}

/// With the same positive denominator, the interpolation at the larger
/// liquidity has the smaller numerator.
proof fn lemma_interp_step(mxn: int, mxd: int, mnn: int, mnd: int, t: int, liq1: int, liq2: int)
    by (nonlinear_arith)
    requires
        mxd > 0,
        mnd > 0,
        mnn * mxd <= mxn * mnd,
        0 < liq1 <= liq2 < t,
    ensures
        ({
            let tden = mxd * mnd * t;
            let rnum1 = mxn * tden - (mxn * mnd - mnn * mxd) * liq1 * mxd;
            let rnum2 = mxn * tden - (mxn * mnd - mnn * mxd) * liq2 * mxd;
            let rden = mxd * tden;
            rnum2 * rden <= rnum1 * rden
        }),
{
}

} // verus!
