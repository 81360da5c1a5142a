use soroban_ajo::contract::AjoContract;
use soroban_ajo::errors::AjoError;
use soroban_ajo::types::TransferOutcome;
use soroban_ajo::utils::is_member;
use soroban_sdk::testutils::{Address as _, EnvTestConfig, Ledger};
use soroban_sdk::{Address, Env};

fn new_env() -> Env {
    Env::new_with_config(EnvTestConfig { capture_snapshot_at_drop: false })
}

fn new_contract(env: &Env) -> AjoContract {
    AjoContract::new(Address::generate(env))
}

#[test]
fn group_ids_count_up_from_one() {
    let env = new_env();
    let mut contract = new_contract(&env);
    let a = Address::generate(&env);
    let b = Address::generate(&env);

    assert_eq!(contract.group_count(), 0);
    assert_eq!(contract.create_group_at(&env, &a, 10, 100, 2, 0, 0, 7), Ok(1));
    assert_eq!(contract.create_group_at(&env, &b, 20, 200, 3, 1, 1, 8), Ok(2));
    assert_eq!(contract.create_group_at(&env, &a, 30, 300, 4, 2, 2, 9), Ok(3));
    assert_eq!(contract.group_count(), 3);

    assert_eq!(contract.get_group(1).unwrap().id, 1);
    assert_eq!(contract.get_group(2).unwrap().id, 2);
    assert_eq!(contract.get_group(3).unwrap().id, 3);
    assert_eq!(contract.get_group(2).unwrap().contribution_amount, 20);
}

#[test]
fn a_refused_creation_uses_no_id() {
    let env = new_env();
    let mut contract = new_contract(&env);
    let a = Address::generate(&env);

    assert_eq!(contract.create_group_at(&env, &a, 0, 100, 2, 0, 0, 7), Err(AjoError::ContributionAmountZero));
    assert_eq!(contract.create_group_at(&env, &a, -5, 100, 2, 0, 0, 7), Err(AjoError::ContributionAmountNegative));
    assert_eq!(contract.create_group_at(&env, &a, 10, 0, 2, 0, 0, 7), Err(AjoError::CycleDurationZero));
    assert_eq!(contract.create_group_at(&env, &a, 10, 100, 1, 0, 0, 7), Err(AjoError::MaxMembersBelowMinimum));
    assert_eq!(contract.create_group_at(&env, &a, 10, 100, 101, 0, 0, 7), Err(AjoError::MaxMembersAboveLimit));
    assert_eq!(contract.create_group_at(&env, &a, 10, 100, 2, 604_801, 0, 7), Err(AjoError::InvalidGracePeriod));
    assert_eq!(contract.create_group_at(&env, &a, 10, 100, 2, 0, 101, 7), Err(AjoError::InvalidPenaltyRate));
    assert_eq!(contract.group_count(), 0);
    assert_eq!(contract.create_group_at(&env, &a, 10, 100, 2, 604_800, 100, 7), Ok(1));
}

#[test]
fn a_new_group_starts_with_its_creator() {
    let env = new_env();
    let mut contract = new_contract(&env);
    let creator = Address::generate(&env);
    let other = Address::generate(&env);

    let id = contract.create_group_at(&env, &creator, 50, 1_000, 5, 60, 10, 12_345).unwrap();
    let group = contract.get_group(id).unwrap();

    assert_eq!(group.creator, creator);
    assert_eq!(group.members.len(), 1);
    assert_eq!(group.members.get(0), Some(creator.clone()));
    assert_eq!(group.contribution_amount, 50);
    assert_eq!(group.cycle_duration, 1_000);
    assert_eq!(group.max_members, 5);
    assert_eq!(group.current_cycle, 1);
    assert_eq!(group.payout_index, 0);
    assert_eq!(group.created_at, 12_345);
    assert_eq!(group.cycle_start_time, 12_345);
    assert_eq!(group.is_complete, false);
    assert_eq!(group.grace_period, 60);
    assert_eq!(group.penalty_rate, 10);
    assert!(is_member(&group.members, &creator));
    assert!(!is_member(&group.members, &other));
}

#[test]
fn a_group_is_created_at_the_time_of_the_ledger() {
    let env = new_env();
    env.ledger().set_timestamp(1_700_000_000);
    let mut contract = new_contract(&env);
    let creator = Address::generate(&env);

    let id = contract.create_group(&env, &creator, 50, 1_000, 5, 60, 10).unwrap();
    let group = contract.get_group(id).unwrap();
    assert_eq!(group.created_at, 1_700_000_000);
    assert_eq!(group.cycle_start_time, 1_700_000_000);
    assert_eq!(soroban_ajo::host::get_current_timestamp(&env), 1_700_000_000);
}

#[test]
fn the_creator_stays_the_first_member() {
    let env = new_env();
    let mut contract = new_contract(&env);
    let creator = Address::generate(&env);
    let b = Address::generate(&env);
    let c = Address::generate(&env);

    let id = contract.create_group_at(&env, &creator, 50, 1_000, 3, 60, 10, 0).unwrap();
    contract.join_group(&b, &b, id).unwrap();
    contract.join_group(&c, &c, id).unwrap();
    contract.contribute_at(&creator, id, 1, TransferOutcome::Completed).unwrap();
    contract.execute_payout_at(id, 1_060, TransferOutcome::Completed).unwrap();

    let group = contract.get_group(id).unwrap();
    assert_eq!(group.members.len(), 3);
    assert_eq!(group.members.get(0), Some(creator.clone()));
    assert_eq!(group.members.get(1), Some(b));
    assert_eq!(group.members.get(2), Some(c));
    assert_eq!(group.members.get(3), None);
    assert_eq!(group.creator, creator);
}

#[test]
fn a_missing_group_is_not_found() {
    let env = new_env();
    let mut contract = new_contract(&env);
    let a = Address::generate(&env);

    assert_eq!(contract.get_group(0).err(), Some(AjoError::GroupNotFound));
    assert_eq!(contract.get_group(1).err(), Some(AjoError::GroupNotFound));
    contract.create_group_at(&env, &a, 10, 100, 2, 0, 0, 7).unwrap();
    assert!(contract.get_group(1).is_ok());
    assert_eq!(contract.get_group(2).err(), Some(AjoError::GroupNotFound));
    assert_eq!(contract.get_group(u64::MAX).err(), Some(AjoError::GroupNotFound));
    assert_eq!(contract.join_group(&a, &a, 2), Err(AjoError::GroupNotFound));
    assert_eq!(contract.contribute_at(&a, 2, 8, TransferOutcome::Completed), Err(AjoError::GroupNotFound));
    assert_eq!(contract.execute_payout_at(2, 1_000, TransferOutcome::Completed), Err(AjoError::GroupNotFound));
    assert_eq!(contract.get_group_status_at(2, 8).err(), Some(AjoError::GroupNotFound));
}

#[test]
fn a_full_group_takes_no_member() {
    let env = new_env();
    let mut contract = new_contract(&env);
    let a = Address::generate(&env);
    let b = Address::generate(&env);
    let c = Address::generate(&env);

    let id = contract.create_group_at(&env, &a, 10, 100, 2, 0, 0, 7).unwrap();
    assert_eq!(contract.join_group(&b, &b, id), Ok(()));
    assert_eq!(contract.get_group(id).unwrap().members.len(), 2);
    assert_eq!(contract.join_group(&c, &c, id), Err(AjoError::GroupFull));
    assert_eq!(contract.get_group(id).unwrap().members.len(), 2);
    assert!(!is_member(&contract.get_group(id).unwrap().members, &c));
}

#[test]
fn a_member_cannot_join_twice() {
    let env = new_env();
    let mut contract = new_contract(&env);
    let a = Address::generate(&env);
    let b = Address::generate(&env);

    let id = contract.create_group_at(&env, &a, 10, 100, 5, 0, 0, 7).unwrap();
    assert_eq!(contract.join_group(&a, &a, id), Err(AjoError::AlreadyMember));
    assert_eq!(contract.join_group(&b, &b, id), Ok(()));
    assert_eq!(contract.join_group(&b, &b, id), Err(AjoError::AlreadyMember));
    assert_eq!(contract.get_group(id).unwrap().members.len(), 2);
}

#[test]
fn only_the_member_itself_may_join() {
    let env = new_env();
    let mut contract = new_contract(&env);
    let a = Address::generate(&env);
    let b = Address::generate(&env);

    let id = contract.create_group_at(&env, &a, 10, 100, 5, 0, 0, 7).unwrap();
    assert_eq!(contract.join_group(&a, &b, id), Err(AjoError::Unauthorized));
    assert_eq!(contract.get_group(id).unwrap().members.len(), 1);
    // The caller is looked at before the group.
    assert_eq!(contract.join_group(&a, &b, 99), Err(AjoError::Unauthorized));
    assert_eq!(contract.join_group(&b, &b.clone(), id), Ok(()));
}

#[test]
fn a_complete_group_takes_no_member() {
    let env = new_env();
    let mut contract = new_contract(&env);
    let a = Address::generate(&env);
    let b = Address::generate(&env);
    let c = Address::generate(&env);

    let id = contract.create_group_at(&env, &a, 10, 100, 5, 0, 0, 0).unwrap();
    contract.join_group(&b, &b, id).unwrap();
    contract.execute_payout_at(id, 100, TransferOutcome::Completed).unwrap();
    assert_eq!(contract.get_group(id).unwrap().is_complete, false);
    contract.execute_payout_at(id, 200, TransferOutcome::Completed).unwrap();
    assert_eq!(contract.get_group(id).unwrap().is_complete, true);
    assert_eq!(contract.join_group(&c, &c, id), Err(AjoError::GroupComplete));
    assert_eq!(contract.get_group(id).unwrap().members.len(), 2);
}
