use vedcoin::currency::{Currency, InMemoryBalances};
use vedcoin::pallet::Pallet;
use vedcoin::types::{BalanceError, DispatchError, Error, Origin};

const SUPPLY: u128 = 1_000_000_000_000_000_000u128;

fn new_test_ext() -> Pallet<InMemoryBalances> {
    let mut balances = InMemoryBalances::new();
    balances.deposit_creating(1, 1_000_000);
    balances.deposit_creating(2, 1_000_000);
    balances.deposit_creating(3, 1_000_000);
    Pallet::new(balances, 8)
}

fn initialized() -> Pallet<InMemoryBalances> {
    let mut p = new_test_ext();
    assert_eq!(
        p.initialize_token(Origin::root(), b"VED".to_vec(), b"VedCoin".to_vec(), 18, SUPPLY),
        Ok(())
    );
    p
}

fn free(p: &Pallet<InMemoryBalances>, who: u64) -> u128 {
    p.currency().free_balance(who)
}

fn reserved(p: &Pallet<InMemoryBalances>, who: u64) -> u128 {
    p.currency().reserved_balance(who)
}

#[test]
fn initialize_token_works() {
    let mut p = new_test_ext();
    assert_eq!(
        p.initialize_token(Origin::root(), b"VED".to_vec(), b"VedCoin".to_vec(), 18, SUPPLY),
        Ok(())
    );
    let info = p.token_info().unwrap();
    assert_eq!(info.symbol, b"VED".to_vec());
    assert_eq!(info.name, b"VedCoin".to_vec());
    assert_eq!(info.decimals, 18);
    assert_eq!(info.total_supply, SUPPLY);
}

#[test]
fn transfer_works() {
    let mut p = initialized();
    assert_eq!(p.transfer(Origin::signed(1), 2, 100_000), Ok(()));
}

#[test]
fn mint_tokens_works() {
    let mut p = initialized();
    assert_eq!(p.mint_tokens(Origin::root(), 1, 500_000), Ok(()));
}

#[test]
fn burn_tokens_works() {
    let mut p = initialized();
    assert_eq!(p.burn_tokens(Origin::signed(1), 100_000), Ok(()));
}

#[test]
fn register_and_stake_works() {
    let mut p = initialized();
    assert_eq!(p.register_validator(Origin::signed(1), 10), Ok(()));
    assert_eq!(p.stake(Origin::signed(1), 1, 100_000), Ok(()));
    assert_eq!(p.stake(Origin::signed(2), 1, 50_000), Ok(()));
}

#[test]
fn unstake_works() {
    let mut p = initialized();
    assert_eq!(p.register_validator(Origin::signed(1), 10), Ok(()));
    assert_eq!(p.stake(Origin::signed(1), 1, 100_000), Ok(()));
    assert_eq!(p.unstake(Origin::signed(1), 1, 50_000), Ok(()));
}

#[test]
fn transfer_moves_balance() {
    let mut p = initialized();
    assert_eq!(p.transfer(Origin::signed(1), 2, 100_000), Ok(()));
    assert_eq!(free(&p, 1), 900_000);
    assert_eq!(free(&p, 2), 1_100_000);
}

#[test]
fn transfer_errors() {
    let mut p = initialized();
    assert_eq!(p.transfer(Origin::signed(1), 2, 0), Err(DispatchError::Module(Error::ZeroAmount)));
    assert_eq!(
        p.transfer(Origin::signed(1), 2, 1_000_001),
        Err(DispatchError::Balance(BalanceError::InsufficientBalance))
    );
    assert_eq!(p.transfer(Origin::root(), 2, 5), Err(DispatchError::BadOrigin));
    assert_eq!(free(&p, 1), 1_000_000);
    assert_eq!(free(&p, 2), 1_000_000);
}

#[test]
fn second_initialize_fails() {
    let mut p = initialized();
    assert_eq!(
        p.initialize_token(Origin::root(), b"VED".to_vec(), b"VedCoin".to_vec(), 18, SUPPLY),
        Err(DispatchError::Module(Error::AlreadyInitialized))
    );
    let info = p.token_info().unwrap();
    assert_eq!(info.total_supply, SUPPLY);
    assert_eq!(info.circulating_supply, SUPPLY);
}

#[test]
fn initialize_rejects_long_symbol_and_unprivileged_caller() {
    let mut p = new_test_ext();
    assert_eq!(
        p.initialize_token(Origin::root(), b"TOOLONGSY".to_vec(), b"X".to_vec(), 0, 1),
        Err(DispatchError::Module(Error::SymbolTooLong))
    );
    assert_eq!(
        p.initialize_token(Origin::signed(1), b"VED".to_vec(), b"X".to_vec(), 0, 1),
        Err(DispatchError::BadOrigin)
    );
    assert!(p.token_info().is_none());
    assert_eq!(
        p.initialize_token(Origin::root(), b"EIGHTSYM".to_vec(), b"X".to_vec(), 0, 1),
        Ok(())
    );
}

#[test]
fn mint_grows_both_supplies() {
    let mut p = initialized();
    assert_eq!(p.mint_tokens(Origin::root(), 1, 500_000), Ok(()));
    let info = p.token_info().unwrap();
    assert_eq!(info.total_supply, SUPPLY + 500_000);
    assert_eq!(info.circulating_supply, SUPPLY + 500_000);
    assert_eq!(free(&p, 1), 1_500_000);
}

#[test]
fn mint_saturates_supply() {
    let mut p = new_test_ext();
    assert_eq!(
        p.initialize_token(Origin::root(), b"VED".to_vec(), b"VedCoin".to_vec(), 18, u128::MAX - 10),
        Ok(())
    );
    assert_eq!(p.mint_tokens(Origin::root(), 4, 100), Ok(()));
    let info = p.token_info().unwrap();
    assert_eq!(info.total_supply, u128::MAX);
    assert_eq!(info.circulating_supply, u128::MAX);
}

#[test]
fn mint_without_record_still_credits() {
    let mut p = new_test_ext();
    assert_eq!(p.mint_tokens(Origin::root(), 9, 70), Ok(()));
    assert!(p.token_info().is_none());
    assert_eq!(free(&p, 9), 70);
}

#[test]
fn mint_errors() {
    let mut p = initialized();
    assert_eq!(p.mint_tokens(Origin::root(), 1, 0), Err(DispatchError::Module(Error::ZeroAmount)));
    assert_eq!(p.mint_tokens(Origin::signed(1), 1, 5), Err(DispatchError::BadOrigin));
    assert_eq!(p.token_info().unwrap().total_supply, SUPPLY);
}

#[test]
fn burn_reduces_circulation_only() {
    let mut p = initialized();
    assert_eq!(p.burn_tokens(Origin::signed(1), 100_000), Ok(()));
    let info = p.token_info().unwrap();
    assert_eq!(info.total_supply, SUPPLY);
    assert_eq!(info.circulating_supply, SUPPLY - 100_000);
    assert_eq!(p.burned_tokens(), 100_000);
    assert_eq!(free(&p, 1), 900_000);
    assert!(info.circulating_supply <= info.total_supply);
}

#[test]
fn burn_errors_leave_state() {
    let mut p = initialized();
    assert_eq!(p.burn_tokens(Origin::signed(1), 0), Err(DispatchError::Module(Error::ZeroAmount)));
    assert_eq!(
        p.burn_tokens(Origin::signed(1), 2_000_000),
        Err(DispatchError::Balance(BalanceError::InsufficientBalance))
    );
    assert_eq!(p.burn_tokens(Origin::Unsigned, 5), Err(DispatchError::BadOrigin));
    assert_eq!(p.burned_tokens(), 0);
    assert_eq!(p.token_info().unwrap().circulating_supply, SUPPLY);
    assert_eq!(free(&p, 1), 1_000_000);
}

#[test]
fn burn_floors_circulation_at_zero() {
    let mut p = new_test_ext();
    assert_eq!(p.initialize_token(Origin::root(), b"V".to_vec(), b"V".to_vec(), 0, 10), Ok(()));
    assert_eq!(p.burn_tokens(Origin::signed(1), 500), Ok(()));
    let info = p.token_info().unwrap();
    assert_eq!(info.circulating_supply, 0);
    assert_eq!(info.total_supply, 10);
    assert_eq!(p.burned_tokens(), 500);
}

#[test]
fn stake_records_self_stake_and_delegation() {
    let mut p = initialized();
    assert_eq!(p.register_validator(Origin::signed(1), 10), Ok(()));
    assert_eq!(p.stake(Origin::signed(1), 1, 100_000), Ok(()));
    assert_eq!(p.stake(Origin::signed(2), 1, 50_000), Ok(()));
    assert_eq!(p.stake(Origin::signed(3), 1, 7), Ok(()));
    assert_eq!(p.stake(Origin::signed(2), 1, 1), Ok(()));
    let info = p.staking_info(1).unwrap();
    assert_eq!(info.staked, 100_000);
    assert_eq!(info.delegators, vec![(2, 50_001), (3, 7)]);
    assert_eq!(info.commission, 10);
    assert!(info.is_validator);
    assert_eq!(p.total_staked(), 150_008);
    assert_eq!(free(&p, 2), 949_999);
    assert_eq!(reserved(&p, 2), 50_001);
}

#[test]
fn stake_errors_leave_state() {
    let mut p = initialized();
    assert_eq!(p.stake(Origin::signed(2), 1, 10), Err(DispatchError::Module(Error::NotValidator)));
    assert_eq!(p.register_validator(Origin::signed(1), 10), Ok(()));
    assert_eq!(p.stake(Origin::signed(2), 1, 0), Err(DispatchError::Module(Error::ZeroAmount)));
    assert_eq!(
        p.stake(Origin::signed(2), 1, 1_000_001),
        Err(DispatchError::Balance(BalanceError::InsufficientBalance))
    );
    assert_eq!(p.stake(Origin::root(), 1, 10), Err(DispatchError::BadOrigin));
    assert_eq!(p.total_staked(), 0);
    assert_eq!(free(&p, 2), 1_000_000);
    assert!(p.staking_info(1).unwrap().delegators.is_empty());
}

#[test]
fn unstake_removes_emptied_delegation_keeping_order() {
    let mut p = initialized();
    assert_eq!(p.register_validator(Origin::signed(1), 10), Ok(()));
    assert_eq!(p.stake(Origin::signed(2), 1, 500), Ok(()));
    assert_eq!(p.stake(Origin::signed(3), 1, 300), Ok(()));
    assert_eq!(p.stake(Origin::signed(4), 1, 1), Err(DispatchError::Balance(BalanceError::InsufficientBalance)));
    assert_eq!(p.unstake(Origin::signed(2), 1, 200), Ok(()));
    assert_eq!(p.staking_info(1).unwrap().delegators, vec![(2, 300), (3, 300)]);
    assert_eq!(p.unstake(Origin::signed(2), 1, 300), Ok(()));
    assert_eq!(p.staking_info(1).unwrap().delegators, vec![(3, 300)]);
    assert_eq!(p.total_staked(), 300);
    assert_eq!(free(&p, 2), 1_000_000);
    assert_eq!(reserved(&p, 2), 0);
}

#[test]
fn unstake_errors() {
    let mut p = initialized();
    assert_eq!(p.unstake(Origin::signed(2), 1, 5), Err(DispatchError::Module(Error::NotValidator)));
    assert_eq!(p.register_validator(Origin::signed(1), 10), Ok(()));
    assert_eq!(p.stake(Origin::signed(1), 1, 100), Ok(()));
    assert_eq!(p.unstake(Origin::signed(1), 1, 0), Err(DispatchError::Module(Error::ZeroAmount)));
    assert_eq!(p.unstake(Origin::signed(1), 1, 101), Err(DispatchError::Module(Error::InsufficientStake)));
    assert_eq!(p.unstake(Origin::root(), 1, 1), Err(DispatchError::BadOrigin));
    assert_eq!(p.staking_info(1).unwrap().staked, 100);
    assert_eq!(p.total_staked(), 100);
}

#[test]
fn unstake_by_stranger_fails() {
    let mut p = initialized();
    assert_eq!(p.register_validator(Origin::signed(1), 10), Ok(()));
    assert_eq!(p.stake(Origin::signed(1), 1, 100_000), Ok(()));
    assert_eq!(
        p.unstake(Origin::signed(2), 1, 10),
        Err(DispatchError::Module(Error::InsufficientStake))
    );
    assert_eq!(free(&p, 2), 1_000_000);
    assert_eq!(reserved(&p, 2), 0);
    assert_eq!(p.total_staked(), 100_000);
    assert_eq!(p.staking_info(1).unwrap().staked, 100_000);
    assert!(p.staking_info(1).unwrap().delegators.is_empty());
}

#[test]
fn invalid_commission_leaves_record() {
    let mut p = initialized();
    assert_eq!(
        p.register_validator(Origin::signed(1), 101),
        Err(DispatchError::Module(Error::InvalidCommission))
    );
    assert!(p.staking_info(1).is_none());
    assert_eq!(p.register_validator(Origin::signed(1), 100), Ok(()));
    assert_eq!(p.stake(Origin::signed(1), 1, 10), Ok(()));
    assert_eq!(
        p.register_validator(Origin::signed(1), 101),
        Err(DispatchError::Module(Error::InvalidCommission))
    );
    assert_eq!(p.staking_info(1).unwrap().staked, 10);
    assert_eq!(p.staking_info(1).unwrap().commission, 100);
    assert_eq!(p.register_validator(Origin::Unsigned, 5), Err(DispatchError::BadOrigin));
}

#[test]
fn reregistration_resets_record_but_not_total() {
    let mut p = initialized();
    assert_eq!(p.register_validator(Origin::signed(1), 10), Ok(()));
    assert_eq!(p.stake(Origin::signed(2), 1, 40), Ok(()));
    assert_eq!(p.register_validator(Origin::signed(1), 20), Ok(()));
    let info = p.staking_info(1).unwrap();
    assert_eq!(info.staked, 0);
    assert!(info.delegators.is_empty());
    assert_eq!(info.commission, 20);
    assert_eq!(p.total_staked(), 40);
    assert_eq!(p.audit_total_staked(), 0);
}

#[test]
fn rewards_split_commission_and_delegators() {
    let mut p = initialized();
    assert_eq!(p.register_validator(Origin::signed(1), 10), Ok(()));
    assert_eq!(p.stake(Origin::signed(1), 1, 100_000), Ok(()));
    assert_eq!(p.stake(Origin::signed(2), 1, 50_000), Ok(()));
    let a_before = free(&p, 1);
    let b_before = free(&p, 2);
    assert_eq!(p.distribute_rewards(1, 1500), Ok(()));
    assert_eq!(free(&p, 1) - a_before, 150);
    assert_eq!(free(&p, 2) - b_before, 1350);
    assert_eq!(p.total_staked(), 150_000);
    assert_eq!(p.staking_info(1).unwrap().staked, 100_000);
}

#[test]
fn rewards_without_delegators_pay_commission_only() {
    let mut p = initialized();
    assert_eq!(p.register_validator(Origin::signed(1), 10), Ok(()));
    let before = free(&p, 1);
    assert_eq!(p.distribute_rewards(1, 1000), Ok(()));
    assert_eq!(free(&p, 1) - before, 100);
    assert_eq!(free(&p, 2), 1_000_000);
    assert_eq!(free(&p, 3), 1_000_000);
}

#[test]
fn rewards_round_down_per_delegator() {
    let mut p = initialized();
    assert_eq!(p.register_validator(Origin::signed(1), 0), Ok(()));
    assert_eq!(p.stake(Origin::signed(2), 1, 1), Ok(()));
    assert_eq!(p.stake(Origin::signed(3), 1, 2), Ok(()));
    assert_eq!(p.distribute_rewards(1, 10), Ok(()));
    assert_eq!(free(&p, 2), 1_000_000 - 1 + 3);
    assert_eq!(free(&p, 3), 1_000_000 - 2 + 6);
    assert_eq!(free(&p, 1), 1_000_000);
}

#[test]
fn rewards_for_unknown_validator_do_nothing() {
    let mut p = initialized();
    assert_eq!(p.distribute_rewards(7, 1000), Ok(()));
    assert_eq!(free(&p, 7), 0);
    assert_eq!(free(&p, 1), 1_000_000);
}

#[test]
fn rewards_twice_pay_twice() {
    let mut p = initialized();
    assert_eq!(p.register_validator(Origin::signed(1), 10), Ok(()));
    assert_eq!(p.stake(Origin::signed(2), 1, 50_000), Ok(()));
    let a0 = free(&p, 1);
    let b0 = free(&p, 2);
    assert_eq!(p.distribute_rewards(1, 1500), Ok(()));
    assert_eq!(p.distribute_rewards(1, 1500), Ok(()));
    assert_eq!(free(&p, 1) - a0, 300);
    assert_eq!(free(&p, 2) - b0, 2700);
}

#[test]
fn full_commission_leaves_nothing_for_delegators() {
    let mut p = initialized();
    assert_eq!(p.register_validator(Origin::signed(1), 100), Ok(()));
    assert_eq!(p.stake(Origin::signed(2), 1, 10), Ok(()));
    let b0 = free(&p, 2);
    assert_eq!(p.distribute_rewards(1, 999), Ok(()));
    assert_eq!(free(&p, 1), 1_000_999);
    assert_eq!(free(&p, 2), b0);
}

#[test]
fn stake_then_unstake_restores_balances() {
    let mut p = initialized();
    assert_eq!(p.register_validator(Origin::signed(1), 10), Ok(()));
    assert_eq!(p.stake(Origin::signed(1), 1, 1000), Ok(()));
    let total = p.total_staked();
    assert_eq!(p.stake(Origin::signed(2), 1, 60_000), Ok(()));
    assert_eq!(p.unstake(Origin::signed(2), 1, 60_000), Ok(()));
    assert_eq!(free(&p, 2), 1_000_000);
    assert_eq!(reserved(&p, 2), 0);
    assert_eq!(p.total_staked(), total);
    assert!(p.staking_info(1).unwrap().delegators.is_empty());
    assert_eq!(p.stake(Origin::signed(1), 1, 5), Ok(()));
    assert_eq!(p.unstake(Origin::signed(1), 1, 5), Ok(()));
    assert_eq!(free(&p, 1), 999_000);
    assert_eq!(p.staking_info(1).unwrap().staked, 1000);
}

#[test]
fn stake_total_matches_records() {
    let mut p = initialized();
    assert_eq!(p.register_validator(Origin::signed(1), 10), Ok(()));
    assert_eq!(p.register_validator(Origin::signed(2), 5), Ok(()));
    assert_eq!(p.stake(Origin::signed(1), 1, 100), Ok(()));
    assert_eq!(p.stake(Origin::signed(3), 1, 30), Ok(()));
    assert_eq!(p.stake(Origin::signed(3), 2, 20), Ok(()));
    assert_eq!(p.stake(Origin::signed(1), 2, 7), Ok(()));
    assert_eq!(p.unstake(Origin::signed(3), 1, 10), Ok(()));
    let mut sum: u128 = 0;
    for v in [1u64, 2u64] {
        let info = p.staking_info(v).unwrap();
        sum += info.staked;
        for (_, amount) in info.delegators.iter() {
            assert!(*amount > 0);
            sum += *amount;
        }
    }
    assert_eq!(p.total_staked(), sum);
    assert_eq!(sum, 147);
    assert_eq!(p.audit_total_staked(), 147);
}

#[test]
fn transfer_to_self_and_receiver_overflow() {
    let mut p = initialized();
    assert_eq!(p.transfer(Origin::signed(1), 1, 1_000_000), Ok(()));
    assert_eq!(free(&p, 1), 1_000_000);
    assert_eq!(p.mint_tokens(Origin::root(), 5, u128::MAX), Ok(()));
    assert_eq!(
        p.transfer(Origin::signed(1), 5, 1),
        Err(DispatchError::Balance(BalanceError::Overflow))
    );
    assert_eq!(free(&p, 1), 1_000_000);
    assert_eq!(free(&p, 5), u128::MAX);
}

#[test]
fn stake_fails_only_when_reserve_would_overflow() {
    let mut p = new_test_ext();
    assert_eq!(p.register_validator(Origin::signed(1), 10), Ok(()));
    assert_eq!(p.mint_tokens(Origin::root(), 6, u128::MAX), Ok(()));
    assert_eq!(p.stake(Origin::signed(6), 1, u128::MAX), Ok(()));
    assert_eq!(p.mint_tokens(Origin::root(), 6, 1), Ok(()));
    assert_eq!(
        p.stake(Origin::signed(6), 1, 1),
        Err(DispatchError::Balance(BalanceError::Overflow))
    );
    assert_eq!(free(&p, 6), 1);
    assert_eq!(reserved(&p, 6), u128::MAX);
    assert_eq!(p.total_staked(), u128::MAX);
}
