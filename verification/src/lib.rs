//! A liquid-unstaking pool: holders of locked staking positions exchange them
//! immediately for liquid funds drawn from a shared reserve, in return for a
//! fee priced by a liquidity-sensitive curve. Liquidity providers fund the
//! reserve and earn the fees; the pool recovers each position's full value
//! once it matures.
//!
//! The crate covers the pool accounting and fee-pricing engine together with
//! the staked-position lifecycle: exact rational arithmetic, the fee curve,
//! the protocol fee split, reserve and share bookkeeping, the record store
//! that guards each accepted position, and the unstake orchestration. All
//! interaction with the external position ledger (authority transfers, fund
//! movement, maturity queries) happens outside this crate; its results enter
//! here as plain values.

pub mod errors;
pub mod fee;
pub mod instructions;
pub mod pool;
pub mod protocol_fee;
pub mod rational;
pub mod records;
