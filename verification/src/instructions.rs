use crate::errors::UnstakeError;
use crate::fee::Fee;
use crate::pool::Pool;
use crate::protocol_fee::ProtocolFee;
use crate::records::{RecordStore, StakeAccountRecord};
use vstd::prelude::*;

verus! {

/// The facts about a staked position that the external ledger reports,
/// resolved to plain values before the core is invoked: the position's
/// identity, its current withdrawal authority, whether a lockup restricts
/// transfer, and its current value.
#[derive(Clone, Copy, Debug, PartialEq, Eq, Structural)]
pub struct PositionInfo {
    /// The position's identity on the external ledger.
    pub id: u64,
    /// The identity currently holding withdrawal authority. The withdrawer
    /// can change both authority roles, so it alone decides ownership.
    pub withdrawer: u64,
    /// Whether a lockup currently restricts transferring the position.
    pub lockup_in_force: bool,
    /// The position's current value as the ledger reports it.
    pub lamports: u64,
}

/// What one accepted unstake committed: the value recorded at acceptance,
/// the amount owed to the requester, the fee retained, and the treasury's
/// cut of that fee, which the caller must transfer out.
#[derive(Clone, Copy, Debug, PartialEq, Eq, Structural)]
pub struct UnstakeReceipt {
    pub lamports_at_creation: u64,
    pub payout_amount: u64,
    pub fee_amount: u64,
    pub protocol_fee_amount: u64,
}

/// Initializes the protocol fee configuration with its default split.
pub fn init_protocol_fee() -> (r: ProtocolFee)
    ensures
        r.wf(),
        r == (ProtocolFee {
            fee_ratio: crate::rational::Rational { num: 1, den: 10 },
            referrer_fee_ratio: crate::rational::Rational { num: 1, den: 2 },
        }),
{
    ProtocolFee::default_config()
}

/// Replaces the protocol fee configuration after validating it; an invalid
/// configuration is rejected and nothing changes.
pub fn set_protocol_fee(current: &mut ProtocolFee, new_fee: ProtocolFee) -> (r: Result<
    (),
    UnstakeError,
>)
    ensures
        !new_fee.wf() ==> r == Err::<(), UnstakeError>(UnstakeError::InvalidFeeConfiguration)
            && *final(current) == *old(current),
        new_fee.wf() ==> r is Ok && *final(current) == new_fee,
{
    match new_fee.validate() {
        Ok(()) => {
            *current = new_fee;
            Ok(())
        },
        Err(e) => Err(e),
    }
}

/// Creates a new, empty pool under the given authorities, after validating
/// its fee curve.
pub fn create_pool(fee: &Fee, authority: u64, fee_authority: u64) -> (r: Result<
    Pool,
    UnstakeError,
>)
    ensures
        !fee.wf() ==> r == Err::<Pool, UnstakeError>(UnstakeError::InvalidFeeConfiguration),
        fee.wf() ==> r == Ok::<Pool, UnstakeError>(
            Pool { authority, fee_authority, reserves: 0, lp_supply: 0 },
        ),
{
    match fee.validate() {
        Ok(()) => Ok(Pool { authority, fee_authority, reserves: 0, lp_supply: 0 }),
        Err(e) => Err(e),
    }
}

/// Replaces the pool's fee curve: the new curve must validate and the
/// caller must hold the pool's fee authority. A rejected change leaves the
/// current curve as it was.
pub fn set_fee(pool: &Pool, current_fee: &mut Fee, caller: u64, new_fee: Fee) -> (r: Result<
    (),
    UnstakeError,
>)
    ensures
        !new_fee.wf() ==> r == Err::<(), UnstakeError>(UnstakeError::InvalidFeeConfiguration)
            && *final(current_fee) == *old(current_fee),
        new_fee.wf() && caller != pool.fee_authority ==> r == Err::<(), UnstakeError>(
            UnstakeError::NotOwned,
        ) && *final(current_fee) == *old(current_fee),
        new_fee.wf() && caller == pool.fee_authority ==> r is Ok && *final(current_fee) == new_fee,
{
    match new_fee.validate() {
        Ok(()) => {
            if caller != pool.fee_authority {
                return Err(UnstakeError::NotOwned);
            }
            *current_fee = new_fee;
            Ok(())
        },
        Err(e) => Err(e),
    }
}

/// Hands the pool's fee authority to another identity; only the current
/// fee authority may do so.
pub fn set_fee_authority(pool: &mut Pool, caller: u64, new_fee_authority: u64) -> (r: Result<
    (),
    UnstakeError,
>)
    ensures
        caller != old(pool).fee_authority ==> r == Err::<(), UnstakeError>(UnstakeError::NotOwned)
            && *final(pool) == *old(pool),
        caller == old(pool).fee_authority ==> {
            &&& r is Ok
            &&& final(pool).fee_authority == new_fee_authority
            &&& final(pool).authority == old(pool).authority
            &&& final(pool).reserves == old(pool).reserves
            &&& final(pool).lp_supply == old(pool).lp_supply
        },
{
    if caller != pool.fee_authority {
        return Err(UnstakeError::NotOwned);
    }
    pool.fee_authority = new_fee_authority;
    Ok(())
}

/// Decides whether a deactivation request for an accepted position may be
/// forwarded to the external ledger: the caller must hold the pool's
/// authority and the pool must hold a record for the position. Nothing is
/// mutated; the ledger call itself happens outside the core.
pub fn deactivate_stake_account(
    pool: &Pool,
    records: &RecordStore,
    caller: u64,
    position_id: u64,
) -> (r: Result<(), UnstakeError>)
    ensures
        caller != pool.authority ==> r == Err::<(), UnstakeError>(UnstakeError::NotOwned),
        caller == pool.authority && !records@.contains_key(position_id) ==> r == Err::<
            (),
            UnstakeError,
        >(UnstakeError::RecordMissing),
        caller == pool.authority && records@.contains_key(position_id) ==> r is Ok,
{
    if caller != pool.authority {
        return Err(UnstakeError::NotOwned);
    }
    if !records.contains(position_id) {
        return Err(UnstakeError::RecordMissing);
    }
    Ok(())
}

/// Reclaims a matured position: credits its externally reported final
/// value to the reserves and destroys its record, exactly once. Before
/// the ledger confirms maturity the attempt fails with `NotYetMature`;
/// any failure leaves the pool and the records unchanged.
pub fn reclaim_stake_account(
    pool: &mut Pool,
    records: &mut RecordStore,
    position_id: u64,
    is_matured: bool,
    current_value: u64,
) -> (r: Result<StakeAccountRecord, UnstakeError>)
    requires
        old(records).wf(),
    ensures
        final(records).wf(),
        r is Err ==> *final(pool) == *old(pool) && final(records)@ == old(records)@,
        !is_matured ==> r == Err::<StakeAccountRecord, UnstakeError>(UnstakeError::NotYetMature),
        is_matured && !old(records)@.contains_key(position_id) ==> r == Err::<
            StakeAccountRecord,
            UnstakeError,
        >(UnstakeError::RecordMissing),
        is_matured && old(records)@.contains_key(position_id) && old(pool).reserves + current_value
            > u64::MAX ==> r == Err::<StakeAccountRecord, UnstakeError>(UnstakeError::Overflow),
        is_matured && old(records)@.contains_key(position_id) && old(pool).reserves + current_value
            <= u64::MAX ==> {
            &&& r == Ok::<StakeAccountRecord, UnstakeError>(old(records)@[position_id])
            &&& final(pool).reserves == old(pool).reserves + current_value
            &&& final(pool).lp_supply == old(pool).lp_supply
            &&& final(pool).authority == old(pool).authority
            &&& final(pool).fee_authority == old(pool).fee_authority
            &&& final(records)@ == old(records)@.remove(position_id)
        },
{
    if !is_matured {
        return Err(UnstakeError::NotYetMature);
    }
    if !records.contains(position_id) {
        return Err(UnstakeError::RecordMissing);
    }
    if current_value > u64::MAX - pool.reserves {
        return Err(UnstakeError::Overflow);
    }
    let record = match records.remove(position_id) {
        Ok(rec) => rec,
        Err(e) => {
            proof {
                assert(false);
            }
            return Err(e);
        },
    };
    match pool.apply_reclaim(current_value) {
        Ok(()) => {},
        Err(e) => {
            proof {
                assert(false);
            }
            return Err(e);
        },
    }
    Ok(record)
}

/// The end-to-end unstake: validates the requester's authority over the
/// position and its lockup, prices the position against the pool's
/// current reserves, debits the payout, splits the fee, and creates the
/// position's record — as one atomic unit. Either every effect commits or
/// none does, so a position can never be accepted without being paid for.
/// The authority transfer and the payout transfer themselves happen on the
/// external ledger, driven by the receipt this returns.
pub fn unstake(
    pool: &mut Pool,
    records: &mut RecordStore,
    fee: &Fee,
    protocol_fee: &ProtocolFee,
    position: PositionInfo,
    unstaker: u64,
) -> (r: Result<UnstakeReceipt, UnstakeError>)
    requires
        fee.wf(),
        protocol_fee.wf(),
        old(records).wf(),
    ensures
        final(records).wf(),
        r is Err ==> *final(pool) == *old(pool) && final(records)@ == old(records)@,
        ({
            let pv = position.lamports;
            let liq = old(pool).reserves - pv;
            let fa = fee.fee_amount_at(liq, pv);
            let pro = protocol_fee.spec_protocol_part((fa as u64));
            let after = old(pool).reserves - (pv - fa) + (fa - pro);
            let not_owned = unstaker != position.withdrawer;
            let locked = !not_owned && position.lockup_in_force;
            let exists_already = !not_owned && !locked && old(records)@.contains_key(position.id);
            let beyond_reserves = !not_owned && !locked && !exists_already && pv > old(
                pool,
            ).reserves;
            let no_fit = !not_owned && !locked && !exists_already && !beyond_reserves
                && !fee.price_fits(liq);
            let too_large = !not_owned && !locked && !exists_already && !beyond_reserves && !no_fit
                && after > u64::MAX;
            &&& not_owned ==> r == Err::<UnstakeReceipt, UnstakeError>(UnstakeError::NotOwned)
            &&& locked ==> r == Err::<UnstakeReceipt, UnstakeError>(UnstakeError::LockupInForce)
            &&& exists_already ==> r == Err::<UnstakeReceipt, UnstakeError>(
                UnstakeError::RecordExists,
            )
            &&& beyond_reserves ==> r == Err::<UnstakeReceipt, UnstakeError>(
                UnstakeError::InsufficientLiquidity,
            )
            &&& no_fit ==> r == Err::<UnstakeReceipt, UnstakeError>(UnstakeError::Overflow)
            &&& too_large ==> r == Err::<UnstakeReceipt, UnstakeError>(UnstakeError::Overflow)
            &&& !not_owned && !locked && !exists_already && !beyond_reserves && !no_fit
                && !too_large ==> {
                &&& r == Ok::<UnstakeReceipt, UnstakeError>(
                    UnstakeReceipt {
                        lamports_at_creation: pv,
                        payout_amount: (pv - fa) as u64,
                        fee_amount: fa as u64,
                        protocol_fee_amount: pro as u64,
                    },
                )
                &&& final(pool).reserves == after
                &&& final(pool).lp_supply == old(pool).lp_supply
                &&& final(pool).authority == old(pool).authority
                &&& final(pool).fee_authority == old(pool).fee_authority
                &&& final(records)@ == old(records)@.insert(
                    position.id,
                    StakeAccountRecord { lamports_at_creation: pv },
                )
            }
        }),
{
    if unstaker != position.withdrawer {
        return Err(UnstakeError::NotOwned);
    }
    if position.lockup_in_force {
        return Err(UnstakeError::LockupInForce);
    }
    if records.contains(position.id) {
        return Err(UnstakeError::RecordExists);
    }
    let (payout_amount, fee_amount) = match pool.quote_unstake(fee, position.lamports) {
        Ok(q) => q,
        Err(e) => { return Err(e); },
    };
    let protocol_fee_amount = match pool.apply_unstake(protocol_fee, payout_amount, fee_amount) {
        Ok(p) => p,
        Err(e) => { return Err(e); },
    };
    let record = StakeAccountRecord { lamports_at_creation: position.lamports };
    match records.create(position.id, record) {
        Ok(()) => {},
        Err(e) => {
            proof {
                assert(false);
            }
            return Err(e);
        },
    }
    Ok(
        UnstakeReceipt {
            lamports_at_creation: position.lamports,
            payout_amount,
            fee_amount,
            protocol_fee_amount,
        },
    )
}

} // verus!
