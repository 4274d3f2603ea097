use crate::errors::UnstakeError;
use crate::fee::{frac_le, Fee};
use crate::protocol_fee::ProtocolFee;
use crate::rational::{lemma_ceil_ratio_le, lemma_floor_ratio_le};
use vstd::arithmetic::div_mod::{
    lemma_div_is_ordered, lemma_div_multiples_vanish, lemma_div_pos_is_pos,
    lemma_fundamental_div_mod, lemma_fundamental_div_mod_converse,
};
use vstd::arithmetic::mul::lemma_mul_nonnegative;
use vstd::prelude::*;

verus! {

/// One liquidity pool: the liquid reserves available for payouts, the
/// outstanding provider-share supply, and the identities allowed to change
/// its configuration. Every mutating operation reads and commits these
/// fields in one exclusive step per pool instance; a failed operation
/// leaves them exactly as they were.
#[derive(Clone, Copy, Debug, PartialEq, Eq, Structural)]
pub struct Pool {
    /// Identity permitted to run pool-gated lifecycle operations.
    pub authority: u64,
    /// Identity permitted to change the fee curve.
    pub fee_authority: u64,
    /// Liquid balance available for payouts and withdrawals.
    pub reserves: u64,
    /// Total outstanding provider shares.
    pub lp_supply: u64,
}

impl Pool {
    /// Shares minted for a deposit: one to one while no shares are
    /// outstanding, else proportional to the current reserves, rounded
    /// down so the pool is never over-credited.
    pub open spec fn spec_minted_shares(self, amount: u64) -> int {
        if self.lp_supply == 0 {
            amount as int
        } else {
            (amount * self.lp_supply) / (self.reserves as int)
        }
    }

    /// Amount withdrawn for burning shares: proportional to the current
    /// reserves, rounded down so the pool is never over-debited.
    pub open spec fn spec_withdrawn(self, shares: u64) -> int {
        (shares * self.reserves) / (self.lp_supply as int)
    }

    /// Deposits `amount` into the reserves and mints provider shares for
    /// it. Fails on a zero deposit, or when the minted shares or the grown
    /// totals would not fit; a failure changes nothing. The proportional
    /// mint is undefined on a drained pool with outstanding shares, so
    /// outstanding shares must be backed by some reserve.
    pub fn add_liquidity(&mut self, amount: u64) -> (r: Result<u64, UnstakeError>)
        requires
            old(self).lp_supply > 0 ==> old(self).reserves > 0,
        ensures
            ({
                let s = old(self).spec_minted_shares(amount);
                let fits = s <= u64::MAX && old(self).reserves + amount <= u64::MAX
                    && old(self).lp_supply + s <= u64::MAX;
                &&& amount == 0 ==> r == Err::<u64, UnstakeError>(UnstakeError::ZeroAmount)
                    && *final(self) == *old(self)
                &&& amount > 0 && !fits ==> r == Err::<u64, UnstakeError>(UnstakeError::Overflow)
                    && *final(self) == *old(self)
                &&& amount > 0 && fits ==> {
                    &&& r == Ok::<u64, UnstakeError>(s as u64)
                    &&& final(self).reserves == old(self).reserves + amount
                    &&& final(self).lp_supply == old(self).lp_supply + s
                    &&& final(self).authority == old(self).authority
                    &&& final(self).fee_authority == old(self).fee_authority
                }
            }),
    {
        if amount == 0 {
            return Err(UnstakeError::ZeroAmount);
        }
        let shares: u64;
        if self.lp_supply == 0 {
            shares = amount;
        } else {
            proof {
                crate::rational::lemma_u64_mul_bounds(amount, self.lp_supply);
                lemma_mul_nonnegative(amount as int, self.lp_supply as int);
                lemma_div_pos_is_pos(amount * self.lp_supply, self.reserves as int);
            }
            let prod: u128 = (amount as u128) * (self.lp_supply as u128);
            let q: u128 = prod / (self.reserves as u128);
            if q > u64::MAX as u128 {
                return Err(UnstakeError::Overflow);
            }
            shares = q as u64;
        }
        if amount > u64::MAX - self.reserves {
            return Err(UnstakeError::Overflow);
        }
        if shares > u64::MAX - self.lp_supply {
            return Err(UnstakeError::Overflow);
        }
        self.reserves = self.reserves + amount;
        self.lp_supply = self.lp_supply + shares;
        Ok(shares)
    }

    /// Burns `shares` and withdraws their proportional slice of the
    /// reserves. Fails when the caller or the pool has fewer shares than
    /// asked, or on a zero request; a failure changes nothing.
    pub fn remove_liquidity(&mut self, shares: u64, caller_balance: u64) -> (r: Result<
        u64,
        UnstakeError,
    >)
        ensures
            ({
                let w = old(self).spec_withdrawn(shares);
                &&& shares == 0 ==> r == Err::<u64, UnstakeError>(UnstakeError::ZeroAmount)
                    && *final(self) == *old(self)
                &&& shares > 0 && (shares > caller_balance || shares > old(self).lp_supply) ==> r
                    == Err::<u64, UnstakeError>(UnstakeError::InsufficientShares)
                    && *final(self) == *old(self)
                &&& shares > 0 && shares <= caller_balance && shares <= old(self).lp_supply ==> {
                    &&& 0 <= w <= old(self).reserves
                    &&& r == Ok::<u64, UnstakeError>(w as u64)
                    &&& final(self).reserves == old(self).reserves - w
                    &&& final(self).lp_supply == old(self).lp_supply - shares
                    &&& final(self).authority == old(self).authority
                    &&& final(self).fee_authority == old(self).fee_authority
                }
            }),
    {
        if shares == 0 {
            return Err(UnstakeError::ZeroAmount);
        }
        if shares > caller_balance || shares > self.lp_supply {
            return Err(UnstakeError::InsufficientShares);
        }
        proof {
            crate::rational::lemma_u64_mul_bounds(shares, self.reserves);
            lemma_floor_ratio_le(self.reserves as int, shares as int, self.lp_supply as int);
        }
        let prod: u128 = (shares as u128) * (self.reserves as u128);
        let q: u128 = prod / (self.lp_supply as u128);
        let withdrawn: u64 = q as u64;
        self.reserves = self.reserves - withdrawn;
        self.lp_supply = self.lp_supply - shares;
        Ok(withdrawn)
    }

    /// Quotes an unstake: the payout owed for a position of the given
    /// value, and the fee retained, with the fee rounded up in the pool's
    /// favor. Rejects a position worth more than the current reserves, and
    /// reports `Overflow` when the curve evaluation does not fit. Reads
    /// only; nothing is committed.
    pub fn quote_unstake(&self, fee: &Fee, position_value: u64) -> (r: Result<
        (u64, u64),
        UnstakeError,
    >)
        requires
            fee.wf(),
        ensures
            position_value > self.reserves <==> r == Err::<(u64, u64), UnstakeError>(
                UnstakeError::InsufficientLiquidity,
            ),
            position_value <= self.reserves && !fee.price_fits(self.reserves - position_value)
                <==> r == Err::<(u64, u64), UnstakeError>(UnstakeError::Overflow),
            position_value <= self.reserves && fee.price_fits(self.reserves - position_value)
                <==> r is Ok,
            r is Ok ==> ({
                let fa = fee.fee_amount_at(self.reserves - position_value, position_value);
                &&& 0 <= fa <= position_value
                &&& r == Ok::<(u64, u64), UnstakeError>(
                    ((position_value - fa) as u64, fa as u64),
                )
            }),
    {
        let rat = match fee.price(self.reserves, position_value) {
            Ok(x) => x,
            Err(e) => { return Err(e); },
        };
        proof {
            lemma_ceil_ratio_le(position_value as int, rat.num as int, rat.den as int);
        }
        let fee_amount = match rat.ceil_mul(position_value) {
            Some(x) => x,
            None => {
                proof {
                    assert(false);
                }
                0
            },
        };
        let payout = position_value - fee_amount;
        Ok((payout, fee_amount))
    }

    /// Commits a quoted unstake: debits the payout from the reserves,
    /// splits the fee, keeps the providers' part of the fee inside the
    /// reserves (this is what inflates share value), and returns the
    /// treasury's part for the caller to transfer out. The reserves can
    /// never be left negative: a payout beyond them is refused, and a
    /// failure changes nothing.
    pub fn apply_unstake(
        &mut self,
        protocol_fee: &ProtocolFee,
        payout_amount: u64,
        fee_amount: u64,
    ) -> (r: Result<u64, UnstakeError>)
        requires
            protocol_fee.wf(),
        ensures
            ({
                let pro = protocol_fee.spec_protocol_part(fee_amount);
                let after = old(self).reserves - payout_amount + (fee_amount - pro);
                &&& payout_amount > old(self).reserves ==> r == Err::<u64, UnstakeError>(
                    UnstakeError::InsufficientLiquidity,
                ) && *final(self) == *old(self)
                &&& payout_amount <= old(self).reserves && after > u64::MAX ==> r == Err::<
                    u64,
                    UnstakeError,
                >(UnstakeError::Overflow) && *final(self) == *old(self)
                &&& payout_amount <= old(self).reserves && after <= u64::MAX ==> {
                    &&& r == Ok::<u64, UnstakeError>(pro as u64)
                    &&& final(self).reserves == after
                    &&& final(self).lp_supply == old(self).lp_supply
                    &&& final(self).authority == old(self).authority
                    &&& final(self).fee_authority == old(self).fee_authority
                }
            }),
    {
        let (provider, protocol) = protocol_fee.split(fee_amount);
        if payout_amount > self.reserves {
            return Err(UnstakeError::InsufficientLiquidity);
        }
        let rem = self.reserves - payout_amount;
        if provider > u64::MAX - rem {
            return Err(UnstakeError::Overflow);
        }
        self.reserves = rem + provider;
        Ok(protocol)
    }

    /// Credits a matured position's externally reported final value to the
    /// reserves when its record is destroyed; any surplus over the value
    /// recorded at acceptance flows to the providers too. A failure
    /// changes nothing.
    pub fn apply_reclaim(&mut self, matured_value: u64) -> (r: Result<(), UnstakeError>)
        ensures
            old(self).reserves + matured_value > u64::MAX ==> r == Err::<(), UnstakeError>(
                UnstakeError::Overflow,
            ) && *final(self) == *old(self),
            old(self).reserves + matured_value <= u64::MAX ==> {
                &&& r is Ok
                &&& final(self).reserves == old(self).reserves + matured_value
                &&& final(self).lp_supply == old(self).lp_supply
                &&& final(self).authority == old(self).authority
                &&& final(self).fee_authority == old(self).fee_authority
            },
    {
        if matured_value > u64::MAX - self.reserves {
            return Err(UnstakeError::Overflow);
        }
        self.reserves = self.reserves + matured_value;
        Ok(())
    }
}

/// Adding liquidity and immediately removing the freshly minted shares
/// never withdraws more than was deposited; when the pool started with no
/// shares (and, with no shares, no reserves), the round trip returns the
/// deposit exactly. Rounding down in both directions prevents value
/// leakage through repeated add/remove cycles.
pub proof fn lemma_add_remove_round_trip(p0: Pool, amount: u64)
    requires
        amount > 0,
        p0.lp_supply == 0 <==> p0.reserves == 0,
    ensures
        ({
            let s = p0.spec_minted_shares(amount);
            let w = (s * (p0.reserves + amount)) / (p0.lp_supply + s);
            &&& 0 <= w <= amount
            &&& p0.lp_supply == 0 ==> w == amount
        }),
{
    let a = amount as int;
    let lp0 = p0.lp_supply as int;
    let r0 = p0.reserves as int;
    let s = p0.spec_minted_shares(amount);
    if lp0 == 0 {
        assert(s == a);
        assert((a * (0 + a)) / (0 + a) == a) by {
            lemma_div_multiples_vanish(a, a);
            assert(a * a == a * (0 + a));
        };
    } else {
        // s is the floor of a * lp0 / r0, so s * r0 <= a * lp0
        lemma_fundamental_div_mod(a * lp0, r0);
        lemma_mul_nonnegative(a, lp0);
        assert(s * r0 <= a * lp0) by (nonlinear_arith)
            requires
                r0 > 0,
                a * lp0 >= 0,
                s == (a * lp0) / r0,
                a * lp0 == r0 * ((a * lp0) / r0) + (a * lp0) % r0,
                (a * lp0) % r0 >= 0,
        ;
        lemma_div_pos_is_pos(a * lp0, r0);
        let w = (s * (r0 + a)) / (lp0 + s);
        lemma_mul_nonnegative(s, r0 + a);
        lemma_div_pos_is_pos(s * (r0 + a), lp0 + s);
        // s * (r0 + a) <= (a + 1) * (lp0 + s) - 1, so the quotient is at most a
        assert(s * (r0 + a) <= (a + 1) * (lp0 + s) - 1) by (nonlinear_arith)
            requires
                s * r0 <= a * lp0,
                lp0 >= 1,
                s >= 0,
                a >= 1,
        ;
        assert((a + 1) * (lp0 + s) - 1 == a * (lp0 + s) + (lp0 + s - 1)) by (nonlinear_arith);
        lemma_fundamental_div_mod_converse((a + 1) * (lp0 + s) - 1, lp0 + s, a, lp0 + s - 1);
        lemma_div_is_ordered(s * (r0 + a), (a + 1) * (lp0 + s) - 1, lp0 + s);
    }
}

/// The redeemable value per share, reserves over share supply, never
/// decreases when liquidity is added: the depositor's shares are rounded
/// down, so existing holders are never diluted.
pub proof fn lemma_share_value_preserved_add(p0: Pool, amount: u64)
    requires
        amount > 0,
        p0.lp_supply > 0,
        p0.reserves > 0,
    ensures
        ({
            let s = p0.spec_minted_shares(amount);
            frac_le(
                p0.reserves as int,
                p0.lp_supply as int,
                p0.reserves + amount,
                p0.lp_supply + s,
            )
        }),
{
    let a = amount as int;
    let lp0 = p0.lp_supply as int;
    let r0 = p0.reserves as int;
    let s = p0.spec_minted_shares(amount);
    lemma_fundamental_div_mod(a * lp0, r0);
    lemma_mul_nonnegative(a, lp0);
    assert(s * r0 <= a * lp0) by (nonlinear_arith)
        requires
            r0 > 0,
            a * lp0 >= 0,
            s == (a * lp0) / r0,
            a * lp0 == r0 * ((a * lp0) / r0) + (a * lp0) % r0,
            (a * lp0) % r0 >= 0,
    ;
    assert(r0 * (lp0 + s) <= (r0 + a) * lp0) by (nonlinear_arith)
        requires
            s * r0 <= a * lp0,
    ;
}

/// The redeemable value per share never decreases when liquidity is
/// removed: the withdrawal is rounded down, so the remaining holders keep
/// at least their proportional slice.
pub proof fn lemma_share_value_preserved_remove(p0: Pool, shares: u64)
    requires
        0 < shares < p0.lp_supply,
    ensures
        ({
            let w = p0.spec_withdrawn(shares);
            frac_le(
                p0.reserves as int,
                p0.lp_supply as int,
                p0.reserves - w,
                p0.lp_supply - shares,
            )
        }),
{
    let sh = shares as int;
    let lp0 = p0.lp_supply as int;
    let r0 = p0.reserves as int;
    let w = p0.spec_withdrawn(shares);
    lemma_fundamental_div_mod(sh * r0, lp0);
    lemma_mul_nonnegative(sh, r0);
    assert(w * lp0 <= sh * r0) by (nonlinear_arith)
        requires
            lp0 > 0,
            sh * r0 >= 0,
            w == (sh * r0) / lp0,
            sh * r0 == lp0 * ((sh * r0) / lp0) + (sh * r0) % lp0,
            (sh * r0) % lp0 >= 0,
    ;
    assert(r0 * (lp0 - sh) <= (r0 - w) * lp0) by (nonlinear_arith)
        requires
            w * lp0 <= sh * r0,
    ;
}

/// A successful quote followed by its commit can never leave the reserves
/// negative: the quoted payout is covered by the reserves the quote was
/// made against, and the committed balance stays nonnegative.
pub proof fn lemma_quote_apply_never_negative(p: Pool, f: Fee, pf: ProtocolFee, position_value: u64)
    requires
        f.wf(),
        pf.wf(),
        position_value <= p.reserves,
        f.price_fits(p.reserves - position_value),
    ensures
        ({
            let fa = f.fee_amount_at(p.reserves - position_value, position_value);
            let payout = position_value - fa;
            let pro = pf.spec_protocol_part((fa as u64));
            &&& 0 <= fa <= position_value
            &&& 0 <= payout <= p.reserves
            &&& 0 <= pro <= fa
            &&& p.reserves - payout + (fa - pro) >= 0
        }),
{
    let liq = p.reserves - position_value;
    crate::fee::lemma_price_bounded(f, liq);
    lemma_ceil_ratio_le(position_value as int, f.curve_num(liq), f.curve_den(liq));
    let fa = f.fee_amount_at(liq, position_value);
    lemma_floor_ratio_le(fa, pf.fee_ratio.num as int, pf.fee_ratio.den as int);
}

} // verus!
