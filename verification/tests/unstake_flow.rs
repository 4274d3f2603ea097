use unstake::errors::UnstakeError;
use unstake::fee::Fee;
use unstake::instructions::{
    create_pool, deactivate_stake_account, init_protocol_fee, reclaim_stake_account, set_fee,
    set_fee_authority, set_protocol_fee, unstake, PositionInfo, UnstakeReceipt,
};
use unstake::pool::Pool;
use unstake::protocol_fee::ProtocolFee;
use unstake::rational::Rational;
use unstake::records::{RecordStore, StakeAccountRecord};

const AUTHORITY: u64 = 11;
const FEE_AUTHORITY: u64 = 22;
const UNSTAKER: u64 = 33;

fn standard_fee() -> Fee {
    Fee::LiquidityLinear {
        max_fee_ratio: Rational { num: 3, den: 10 },
        min_fee_ratio: Rational { num: 3, den: 1000 },
        liquidity_threshold: 500_000,
    }
}

fn position(id: u64, lamports: u64) -> PositionInfo {
    PositionInfo { id, withdrawer: UNSTAKER, lockup_in_force: false, lamports }
}

fn funded_pool() -> Pool {
    let mut pool = create_pool(&standard_fee(), AUTHORITY, FEE_AUTHORITY).unwrap();
    assert_eq!(pool.reserves, 0);
    assert_eq!(pool.lp_supply, 0);
    assert_eq!(pool.add_liquidity(1_000_000), Ok(1_000_000));
    pool
}

#[test]
fn init_protocol_fee_defaults() {
    let pf = init_protocol_fee();
    assert_eq!(pf.fee_ratio, Rational { num: 1, den: 10 });
    assert_eq!(pf.referrer_fee_ratio, Rational { num: 1, den: 2 });
}

#[test]
fn set_protocol_fee_validates() {
    let mut pf = init_protocol_fee();
    let bad = ProtocolFee {
        fee_ratio: Rational { num: 3, den: 2 },
        referrer_fee_ratio: Rational { num: 1, den: 2 },
    };
    assert_eq!(set_protocol_fee(&mut pf, bad), Err(UnstakeError::InvalidFeeConfiguration));
    assert_eq!(pf.fee_ratio, Rational { num: 1, den: 10 });
    let good = ProtocolFee {
        fee_ratio: Rational { num: 1, den: 5 },
        referrer_fee_ratio: Rational { num: 1, den: 2 },
    };
    assert_eq!(set_protocol_fee(&mut pf, good), Ok(()));
    assert_eq!(pf.fee_ratio, Rational { num: 1, den: 5 });
}

#[test]
fn create_pool_rejects_invalid_curve() {
    let bad = Fee::Flat { ratio: Rational { num: 2, den: 1 } };
    assert_eq!(create_pool(&bad, AUTHORITY, FEE_AUTHORITY), Err(UnstakeError::InvalidFeeConfiguration));
}

#[test]
fn set_fee_requires_fee_authority() {
    let pool = funded_pool();
    let mut fee = standard_fee();
    let new_fee = Fee::Flat { ratio: Rational { num: 1, den: 100 } };
    assert_eq!(set_fee(&pool, &mut fee, AUTHORITY, new_fee), Err(UnstakeError::NotOwned));
    assert_eq!(set_fee(&pool, &mut fee, FEE_AUTHORITY, new_fee), Ok(()));
    match fee {
        Fee::Flat { ratio } => assert_eq!(ratio, Rational { num: 1, den: 100 }),
        _ => panic!("fee curve was not replaced"),
    }
}

#[test]
fn set_fee_validates_before_authority() {
    let pool = funded_pool();
    let mut fee = standard_fee();
    let bad = Fee::Flat { ratio: Rational { num: 2, den: 1 } };
    assert_eq!(set_fee(&pool, &mut fee, AUTHORITY, bad), Err(UnstakeError::InvalidFeeConfiguration));
}

#[test]
fn set_fee_authority_rotates() {
    let mut pool = funded_pool();
    assert_eq!(set_fee_authority(&mut pool, UNSTAKER, 44), Err(UnstakeError::NotOwned));
    assert_eq!(pool.fee_authority, FEE_AUTHORITY);
    assert_eq!(set_fee_authority(&mut pool, FEE_AUTHORITY, 44), Ok(()));
    assert_eq!(pool.fee_authority, 44);
    assert_eq!(pool.authority, AUTHORITY);
}

#[test]
fn unstake_pays_out_and_records() {
    let mut pool = funded_pool();
    let mut records = RecordStore::new();
    let pf = init_protocol_fee();
    let receipt = unstake(
        &mut pool,
        &mut records,
        &standard_fee(),
        &pf,
        position(1, 100_000),
        UNSTAKER,
    )
    .unwrap();
    // remaining liquidity 900_000 is above the threshold: fee ratio 3/1000,
    // fee = ceil(100_000 * 3/1000) = 300, treasury takes floor(300/10) = 30
    assert_eq!(
        receipt,
        UnstakeReceipt {
            lamports_at_creation: 100_000,
            payout_amount: 99_700,
            fee_amount: 300,
            protocol_fee_amount: 30,
        }
    );
    assert_eq!(pool.reserves, 1_000_000 - 99_700 + 270);
    assert_eq!(pool.lp_supply, 1_000_000);
    assert!(records.contains(1));
}

#[test]
fn unstake_requires_withdraw_authority() {
    let mut pool = funded_pool();
    let mut records = RecordStore::new();
    let pf = init_protocol_fee();
    let r = unstake(&mut pool, &mut records, &standard_fee(), &pf, position(1, 100_000), 99);
    assert_eq!(r, Err(UnstakeError::NotOwned));
    assert_eq!(pool.reserves, 1_000_000);
    assert!(!records.contains(1));
}

#[test]
fn unstake_rejects_lockup_in_force() {
    let mut pool = funded_pool();
    let mut records = RecordStore::new();
    let pf = init_protocol_fee();
    let mut pos = position(1, 100_000);
    pos.lockup_in_force = true;
    let r = unstake(&mut pool, &mut records, &standard_fee(), &pf, pos, UNSTAKER);
    assert_eq!(r, Err(UnstakeError::LockupInForce));
    assert_eq!(pool.reserves, 1_000_000);
}

#[test]
fn unstake_same_position_twice_fails() {
    let mut pool = funded_pool();
    let mut records = RecordStore::new();
    let pf = init_protocol_fee();
    let fee = standard_fee();
    assert!(unstake(&mut pool, &mut records, &fee, &pf, position(1, 100_000), UNSTAKER).is_ok());
    let reserves_after_first = pool.reserves;
    let r = unstake(&mut pool, &mut records, &fee, &pf, position(1, 100_000), UNSTAKER);
    assert_eq!(r, Err(UnstakeError::RecordExists));
    assert_eq!(pool.reserves, reserves_after_first);
}

#[test]
fn unstake_rejects_value_beyond_reserves() {
    let fee = standard_fee();
    let mut pool = create_pool(&fee, AUTHORITY, FEE_AUTHORITY).unwrap();
    assert_eq!(pool.add_liquidity(50_000), Ok(50_000));
    let mut records = RecordStore::new();
    let pf = init_protocol_fee();
    let r = unstake(&mut pool, &mut records, &fee, &pf, position(1, 100_000), UNSTAKER);
    assert_eq!(r, Err(UnstakeError::InsufficientLiquidity));
    assert_eq!(pool.reserves, 50_000);
    assert!(!records.contains(1));
}

#[test]
fn deactivate_requires_pool_authority_and_record() {
    let mut pool = funded_pool();
    let mut records = RecordStore::new();
    let pf = init_protocol_fee();
    unstake(&mut pool, &mut records, &standard_fee(), &pf, position(1, 100_000), UNSTAKER).unwrap();
    assert_eq!(deactivate_stake_account(&pool, &records, UNSTAKER, 1), Err(UnstakeError::NotOwned));
    assert_eq!(
        deactivate_stake_account(&pool, &records, AUTHORITY, 2),
        Err(UnstakeError::RecordMissing)
    );
    assert_eq!(deactivate_stake_account(&pool, &records, AUTHORITY, 1), Ok(()));
}

#[test]
fn reclaim_before_maturity_fails() {
    let mut pool = funded_pool();
    let mut records = RecordStore::new();
    let pf = init_protocol_fee();
    unstake(&mut pool, &mut records, &standard_fee(), &pf, position(1, 100_000), UNSTAKER).unwrap();
    let reserves_before = pool.reserves;
    let r = reclaim_stake_account(&mut pool, &mut records, 1, false, 100_000);
    assert_eq!(r, Err(UnstakeError::NotYetMature));
    assert_eq!(pool.reserves, reserves_before);
    assert!(records.contains(1));
}

#[test]
fn reclaim_after_maturity_succeeds_exactly_once() {
    let mut pool = funded_pool();
    let mut records = RecordStore::new();
    let pf = init_protocol_fee();
    unstake(&mut pool, &mut records, &standard_fee(), &pf, position(1, 100_000), UNSTAKER).unwrap();
    let reserves_before = pool.reserves;
    // the matured value may exceed the value at creation; the surplus also
    // flows into the reserves
    let r = reclaim_stake_account(&mut pool, &mut records, 1, true, 100_250);
    assert_eq!(r, Ok(StakeAccountRecord { lamports_at_creation: 100_000 }));
    assert_eq!(pool.reserves, reserves_before + 100_250);
    assert!(!records.contains(1));
    let again = reclaim_stake_account(&mut pool, &mut records, 1, true, 100_250);
    assert_eq!(again, Err(UnstakeError::RecordMissing));
    assert_eq!(pool.reserves, reserves_before + 100_250);
}

#[test]
fn fees_accrue_to_share_value() {
    let mut pool = funded_pool();
    let mut records = RecordStore::new();
    let pf = init_protocol_fee();
    unstake(&mut pool, &mut records, &standard_fee(), &pf, position(1, 100_000), UNSTAKER).unwrap();
    reclaim_stake_account(&mut pool, &mut records, 1, true, 100_000).unwrap();
    // the payout left with a 300 spread retained, the providers' 270 of the
    // split fee was credited back, and the full position value returned at
    // maturity: the providers' claim grew by 570 over their deposit
    assert_eq!(pool.reserves, 1_000_000 - 99_700 + 270 + 100_000);
    assert_eq!(pool.lp_supply, 1_000_000);
    let withdrawn = pool.remove_liquidity(1_000_000, 1_000_000).unwrap();
    assert_eq!(withdrawn, 1_000_570);
}
