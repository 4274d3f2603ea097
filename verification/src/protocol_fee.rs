use crate::errors::UnstakeError;
use crate::rational::{lemma_floor_ratio_le, Rational};
use vstd::prelude::*;

verus! {

/// The protocol's cut of each fee taken in: a fraction of the fee amount
/// (never of the principal) is diverted to the protocol treasury, and the
/// remainder accrues to the pool's reserves for the liquidity providers.
#[derive(Clone, Copy, Debug)]
pub struct ProtocolFee {
    /// Fraction of the fee amount diverted to the protocol treasury.
    pub fee_ratio: Rational,
    /// Fraction of the protocol's cut that a referrer may claim.
    pub referrer_fee_ratio: Rational,
}

impl ProtocolFee {
    /// Both ratios have positive denominators and lie within `[0, 1]`.
    pub open spec fn wf(self) -> bool {
        &&& self.fee_ratio.wf()
        &&& self.fee_ratio.le_one()
        &&& self.referrer_fee_ratio.wf()
        &&& self.referrer_fee_ratio.le_one()
    }

    /// The treasury's part of a fee: the fee amount times the protocol
    /// ratio, rounded down.
    pub open spec fn spec_protocol_part(self, fee_amount: u64) -> int {
        (fee_amount * self.fee_ratio.num) / (self.fee_ratio.den as int)
    }

    /// The initial protocol fee configuration: a tenth of each fee to the
    /// treasury, half of that claimable by a referrer.
    pub fn default_config() -> (r: ProtocolFee)
        ensures
            r.wf(),
            r.fee_ratio == (Rational { num: 1, den: 10 }),
            r.referrer_fee_ratio == (Rational { num: 1, den: 2 }),
    {
        ProtocolFee {
            fee_ratio: Rational { num: 1, den: 10 },
            referrer_fee_ratio: Rational { num: 1, den: 2 },
        }
    }

    /// Checks the configuration rules at configuration time.
    pub fn validate(&self) -> (r: Result<(), UnstakeError>)
        ensures
            r is Ok <==> self.wf(),
            r is Err ==> r == Err::<(), UnstakeError>(UnstakeError::InvalidFeeConfiguration),
    {
        if self.fee_ratio.den > 0 && self.fee_ratio.num <= self.fee_ratio.den
            && self.referrer_fee_ratio.den > 0
            && self.referrer_fee_ratio.num <= self.referrer_fee_ratio.den {
            Ok(())
        } else {
            Err(UnstakeError::InvalidFeeConfiguration)
        }
    }

    /// Splits a fee amount into the providers' part and the treasury's
    /// part. The treasury's part is rounded down and the providers keep the
    /// remainder, so no unit of the fee is lost.
    pub fn split(&self, fee_amount: u64) -> (r: (u64, u64))
        requires
            self.wf(),
        ensures
            r.1 == self.spec_protocol_part(fee_amount),
            r.0 + r.1 == fee_amount,
    {
        proof {
            lemma_floor_ratio_le(
                fee_amount as int,
                self.fee_ratio.num as int,
                self.fee_ratio.den as int,
            );
        }
        let protocol = match self.fee_ratio.floor_mul(fee_amount) {
            Some(p) => p,
            None => {
                proof {
                    assert(false);
                }
                0
            },
        };
        let provider = fee_amount - protocol;
        (provider, protocol)
    }
}

} // verus!
