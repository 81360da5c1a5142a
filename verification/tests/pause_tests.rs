use soroban_ajo::contract::AjoContract;
use soroban_ajo::errors::AjoError;
use soroban_ajo::pausable::{ensure_not_paused, is_admin, is_paused, pause, unpause, Config};
use soroban_ajo::types::TransferOutcome;
use soroban_sdk::testutils::{Address as _, EnvTestConfig};
use soroban_sdk::{Address, Env};

fn new_env() -> Env {
    Env::new_with_config(EnvTestConfig { capture_snapshot_at_drop: false })
}

#[test]
fn a_contract_starts_unpaused() {
    let env = new_env();
    let admin = Address::generate(&env);
    let contract = AjoContract::new(admin.clone());

    assert_eq!(is_paused(contract.config()), false);
    assert_eq!(ensure_not_paused(contract.config()), Ok(()));
    assert_eq!(contract.config().admin, Some(admin));
}

#[test]
fn only_the_admin_pauses() {
    let env = new_env();
    let admin = Address::generate(&env);
    let other = Address::generate(&env);
    let mut contract = AjoContract::new(admin.clone());

    assert_eq!(contract.pause(&other), Err(AjoError::UnauthorizedPause));
    assert_eq!(is_paused(contract.config()), false);
    assert_eq!(contract.pause(&admin), Ok(()));
    assert_eq!(is_paused(contract.config()), true);
    assert_eq!(ensure_not_paused(contract.config()), Err(AjoError::ContractPaused));

    assert_eq!(contract.unpause(&other), Err(AjoError::UnauthorizedUnpause));
    assert_eq!(is_paused(contract.config()), true);
    assert_eq!(contract.unpause(&admin), Ok(()));
    assert_eq!(is_paused(contract.config()), false);
}

#[test]
fn pausing_twice_is_pausing_once() {
    let env = new_env();
    let admin = Address::generate(&env);
    let mut contract = AjoContract::new(admin.clone());

    assert_eq!(contract.unpause(&admin), Ok(()));
    assert_eq!(is_paused(contract.config()), false);
    assert_eq!(contract.pause(&admin), Ok(()));
    assert_eq!(contract.pause(&admin), Ok(()));
    assert_eq!(is_paused(contract.config()), true);
    assert_eq!(contract.unpause(&admin), Ok(()));
    assert_eq!(contract.unpause(&admin), Ok(()));
    assert_eq!(is_paused(contract.config()), false);
}

#[test]
fn a_config_without_admin_cannot_be_paused() {
    let env = new_env();
    let anyone = Address::generate(&env);
    let mut config = Config { admin: None, paused: false };

    assert_eq!(is_admin(&config, &anyone), false);
    assert_eq!(pause(&mut config, &anyone), Err(AjoError::UnauthorizedPause));
    assert_eq!(config.paused, false);
    config.paused = true;
    assert_eq!(unpause(&mut config, &anyone), Err(AjoError::UnauthorizedUnpause));
    assert_eq!(config.paused, true);

    config.admin = Some(anyone.clone());
    assert_eq!(is_admin(&config, &anyone), true);
    assert_eq!(unpause(&mut config, &anyone), Ok(()));
    assert_eq!(config.paused, false);
    assert_eq!(config.admin, Some(anyone));
}

#[test]
fn a_paused_contract_takes_no_change_and_answers_queries() {
    let env = new_env();
    let admin = Address::generate(&env);
    let a = Address::generate(&env);
    let b = Address::generate(&env);
    let c = Address::generate(&env);
    let mut contract = AjoContract::new(admin.clone());

    let id = contract.create_group_at(&env, &a, 1_000, 500, 3, 100, 10, 0).unwrap();
    contract.join_group(&b, &b, id).unwrap();
    contract.contribute_at(&a, id, 500, TransferOutcome::Completed).unwrap();

    contract.pause(&admin).unwrap();

    assert_eq!(contract.create_group_at(&env, &a, 1_000, 500, 3, 100, 10, 0), Err(AjoError::ContractPaused));
    assert_eq!(contract.create_group(&env, &a, 1_000, 500, 3, 100, 10), Err(AjoError::ContractPaused));
    // The pause is looked at before the terms, the caller and the group.
    assert_eq!(contract.create_group_at(&env, &a, 0, 0, 0, 0, 0, 0), Err(AjoError::ContractPaused));
    assert_eq!(contract.join_group(&c, &c, id), Err(AjoError::ContractPaused));
    assert_eq!(contract.join_group(&a, &c, 99), Err(AjoError::ContractPaused));
    assert_eq!(contract.contribute_at(&b, id, 10, TransferOutcome::Completed), Err(AjoError::ContractPaused));
    assert_eq!(contract.contribution_due_at(&b, id, 10).err(), Some(AjoError::ContractPaused));
    assert_eq!(contract.execute_payout_at(id, 600, TransferOutcome::Completed), Err(AjoError::ContractPaused));
    assert_eq!(contract.payout_due_at(id, 600).err(), Some(AjoError::ContractPaused));

    // Queries are answered.
    assert_eq!(contract.group_count(), 1);
    let group = contract.get_group(id).unwrap();
    assert_eq!((group.members.len(), group.current_cycle, group.payout_index), (2, 1, 0));
    assert_eq!(contract.get_member_penalty_record(id, &a).late_count, 1);
    assert_eq!(contract.get_cycle_penalty_pool(id, 1), 100);
    assert_eq!(contract.get_contribution_detail(id, 1, &a).unwrap().penalty_amount, 100);
    assert!(contract.get_contribution_detail(id, 1, &b).is_none());
    let status = contract.get_group_status_at(id, 550).unwrap();
    assert_eq!((status.is_cycle_active, status.is_in_grace_period, status.cycle_penalty_pool), (false, true, 100));
}

#[test]
fn unpausing_restores_the_contract_as_it_was() {
    let env = new_env();
    let admin = Address::generate(&env);
    let a = Address::generate(&env);
    let b = Address::generate(&env);
    let c = Address::generate(&env);
    let mut contract = AjoContract::new(admin.clone());

    let id = contract.create_group_at(&env, &a, 1_000, 500, 3, 100, 10, 0).unwrap();
    contract.join_group(&b, &b, id).unwrap();
    contract.contribute_at(&a, id, 500, TransferOutcome::Completed).unwrap();

    contract.pause(&admin).unwrap();
    assert_eq!(contract.join_group(&c, &c, id), Err(AjoError::ContractPaused));
    contract.unpause(&admin).unwrap();

    let group = contract.get_group(id).unwrap();
    assert_eq!((group.members.len(), group.current_cycle, group.payout_index), (2, 1, 0));
    assert_eq!(contract.get_cycle_penalty_pool(id, 1), 100);
    assert_eq!(contract.get_member_penalty_record(id, &a).total_penalties, 100);

    assert_eq!(contract.join_group(&c, &c, id), Ok(()));
    assert_eq!(contract.contribute_at(&b, id, 10, TransferOutcome::Completed), Ok(()));
    assert_eq!(contract.contribute_at(&a, id, 10, TransferOutcome::Completed), Err(AjoError::AlreadyContributed));
    assert_eq!(contract.create_group_at(&env, &c, 5, 5, 5, 5, 5, 5), Ok(2));
    assert_eq!(contract.payout_due_at(id, 600).unwrap().amount, 3_100);
    assert_eq!(contract.execute_payout_at(id, 600, TransferOutcome::Completed), Ok(()));
}
