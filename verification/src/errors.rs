use vstd::prelude::*;

verus! {

/// Every way an operation of this crate can fail. All failures are surfaced
/// to the caller; no operation commits a partial state change alongside an
/// error.
#[derive(Clone, Copy, Debug, PartialEq, Eq, Structural)]
pub enum UnstakeError {
    /// An arithmetic step would lose precision or wrap.
    Overflow,
    /// A requested payout exceeds the pool's current reserves.
    InsufficientLiquidity,
    /// A withdrawal asks for more shares than the caller or the pool has.
    InsufficientShares,
    /// A liquidity operation with zero magnitude.
    ZeroAmount,
    /// The position cannot be transferred while its lockup is in force.
    LockupInForce,
    /// The caller lacks the required authority.
    NotOwned,
    /// Reclamation was attempted before the ledger confirmed inactivity.
    NotYetMature,
    /// Fee-curve or protocol-fee ratios violate the ordering or bounds rules.
    InvalidFeeConfiguration,
    /// A record for this position identity already exists.
    RecordExists,
    /// No record exists for this position identity.
    RecordMissing,
}

} // verus!
