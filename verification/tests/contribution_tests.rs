use soroban_ajo::contract::AjoContract;
use soroban_ajo::errors::AjoError;
use soroban_ajo::types::{ContributionDue, TransferOutcome};
use soroban_sdk::testutils::{Address as _, EnvTestConfig};
use soroban_sdk::{Address, Env};

const START: u64 = 1_000;
const DURATION: u64 = 500;
const GRACE: u64 = 100;

/// A group of `amount` and `rate` with two members, created at `START`.
fn group_of_two(amount: i128, rate: u32) -> (Env, AjoContract, Address, Address, u64) {
    let env = Env::new_with_config(EnvTestConfig { capture_snapshot_at_drop: false });
    let mut contract = AjoContract::new(Address::generate(&env));
    let a = Address::generate(&env);
    let b = Address::generate(&env);
    let id = contract.create_group_at(&env, &a, amount, DURATION, 5, GRACE, rate, START).unwrap();
    contract.join_group(&b, &b, id).unwrap();
    (env, contract, a, b, id)
}

#[test]
fn a_member_contributes_once_in_a_cycle() {
    let (_env, mut contract, a, b, id) = group_of_two(1_000, 10);

    assert_eq!(contract.contribute_at(&a, id, START, TransferOutcome::Completed), Ok(()));
    assert_eq!(contract.contribute_at(&a, id, START, TransferOutcome::Completed), Err(AjoError::AlreadyContributed));
    assert_eq!(
        contract.contribute_at(&a, id, START + DURATION, TransferOutcome::Completed),
        Err(AjoError::AlreadyContributed)
    );
    assert_eq!(
        contract.contribute_at(&a, id, START + DURATION + GRACE, TransferOutcome::Failed),
        Err(AjoError::AlreadyContributed)
    );
    assert_eq!(contract.contribution_due_at(&a, id, START).err(), Some(AjoError::AlreadyContributed));
    // The other member is not concerned.
    assert_eq!(contract.contribute_at(&b, id, START + 1, TransferOutcome::Completed), Ok(()));
    assert_eq!(contract.get_member_penalty_record(id, &a).on_time_count, 1);
}

#[test]
fn a_member_contributes_again_in_the_next_cycle() {
    let (_env, mut contract, a, _b, id) = group_of_two(1_000, 10);

    contract.contribute_at(&a, id, START, TransferOutcome::Completed).unwrap();
    let paid_at = START + DURATION + GRACE;
    contract.execute_payout_at(id, paid_at, TransferOutcome::Completed).unwrap();
    assert_eq!(contract.contribute_at(&a, id, paid_at, TransferOutcome::Completed), Ok(()));
    assert_eq!(contract.contribute_at(&a, id, paid_at, TransferOutcome::Completed), Err(AjoError::AlreadyContributed));

    let first = contract.get_contribution_detail(id, 1, &a).unwrap();
    let second = contract.get_contribution_detail(id, 2, &a).unwrap();
    assert_eq!((first.cycle, first.timestamp), (1, START));
    assert_eq!((second.cycle, second.timestamp), (2, paid_at));
    assert!(contract.get_contribution_detail(id, 3, &a).is_none());
}

#[test]
fn a_stranger_cannot_contribute() {
    let (env, mut contract, _a, _b, id) = group_of_two(1_000, 10);
    let stranger = Address::generate(&env);

    assert_eq!(contract.contribute_at(&stranger, id, START, TransferOutcome::Completed), Err(AjoError::NotMember));
    assert!(contract.get_contribution_detail(id, 1, &stranger).is_none());
    let record = contract.get_member_penalty_record(id, &stranger);
    assert_eq!((record.on_time_count, record.late_count), (0, 0));
}

#[test]
fn the_cycle_window_is_closed_at_its_start_and_open_at_its_end() {
    let (_env, contract, a, _b, id) = group_of_two(1_000, 10);
    let on_time = ContributionDue { amount: 1_000, is_late: false, penalty_amount: 0 };
    let late = ContributionDue { amount: 1_100, is_late: true, penalty_amount: 100 };

    assert_eq!(contract.contribution_due_at(&a, id, START), Ok(on_time));
    assert_eq!(contract.contribution_due_at(&a, id, START + DURATION - 1), Ok(on_time));
    assert_eq!(contract.contribution_due_at(&a, id, START + DURATION), Ok(late));
    assert_eq!(contract.contribution_due_at(&a, id, START + DURATION + GRACE - 1), Ok(late));
    assert_eq!(
        contract.contribution_due_at(&a, id, START + DURATION + GRACE).err(),
        Some(AjoError::GracePeriodExpired)
    );
    assert_eq!(contract.contribution_due_at(&a, id, u64::MAX).err(), Some(AjoError::GracePeriodExpired));
    // A time before the cycle lies in neither window.
    assert_eq!(contract.contribution_due_at(&a, id, START - 1).err(), Some(AjoError::GracePeriodExpired));
}

#[test]
fn an_on_time_contribution_pays_no_penalty() {
    let (_env, mut contract, a, _b, id) = group_of_two(1_000, 10);

    contract.contribute_at(&a, id, START + DURATION - 1, TransferOutcome::Completed).unwrap();
    let detail = contract.get_contribution_detail(id, 1, &a).unwrap();
    assert_eq!(detail.member, a);
    assert_eq!(detail.group_id, id);
    assert_eq!(detail.cycle, 1);
    assert_eq!(detail.has_paid, true);
    assert_eq!(detail.timestamp, START + DURATION - 1);
    assert_eq!(detail.is_late, false);
    assert_eq!(detail.penalty_amount, 0);
    assert_eq!(contract.get_cycle_penalty_pool(id, 1), 0);
}

#[test]
fn a_late_contribution_pays_the_penalty() {
    let (_env, mut contract, a, b, id) = group_of_two(1_000, 10);

    contract.contribute_at(&a, id, START + DURATION, TransferOutcome::Completed).unwrap();
    contract.contribute_at(&b, id, START + DURATION + GRACE - 1, TransferOutcome::Completed).unwrap();
    let detail = contract.get_contribution_detail(id, 1, &b).unwrap();
    assert_eq!(detail.is_late, true);
    assert_eq!(detail.penalty_amount, 100);
    assert_eq!(detail.timestamp, START + DURATION + GRACE - 1);
    assert_eq!(contract.get_cycle_penalty_pool(id, 1), 200);
    assert_eq!(contract.get_cycle_penalty_pool(id, 2), 0);
    assert_eq!(contract.get_member_penalty_record(id, &a).total_penalties, 100);
}

#[test]
fn an_expired_contribution_changes_nothing() {
    let (_env, mut contract, a, _b, id) = group_of_two(1_000, 10);

    let at = START + DURATION + GRACE;
    assert_eq!(contract.contribute_at(&a, id, at, TransferOutcome::Completed), Err(AjoError::GracePeriodExpired));
    assert!(contract.get_contribution_detail(id, 1, &a).is_none());
    let record = contract.get_member_penalty_record(id, &a);
    assert_eq!((record.on_time_count, record.late_count, record.total_penalties), (0, 0, 0));
    assert_eq!(record.reliability_score, 100);
    assert_eq!(contract.get_cycle_penalty_pool(id, 1), 0);
    assert_eq!(contract.get_group(id).unwrap().current_cycle, 1);
}

#[test]
fn the_penalty_is_rounded_down() {
    let (_env, contract, a, _b, id) = group_of_two(999, 7);
    // 999 * 7 / 100 = 69.93
    assert_eq!(
        contract.contribution_due_at(&a, id, START + DURATION),
        Ok(ContributionDue { amount: 1_068, is_late: true, penalty_amount: 69 })
    );

    let (_env, contract, a, _b, id) = group_of_two(99, 1);
    assert_eq!(
        contract.contribution_due_at(&a, id, START + DURATION),
        Ok(ContributionDue { amount: 99, is_late: true, penalty_amount: 0 })
    );

    let (_env, contract, a, _b, id) = group_of_two(250, 100);
    assert_eq!(
        contract.contribution_due_at(&a, id, START + DURATION),
        Ok(ContributionDue { amount: 500, is_late: true, penalty_amount: 250 })
    );
}

#[test]
fn a_failed_transfer_changes_nothing() {
    let (_env, mut contract, a, _b, id) = group_of_two(1_000, 10);

    assert_eq!(
        contract.contribute_at(&a, id, START + DURATION, TransferOutcome::InsufficientBalance),
        Err(AjoError::InsufficientBalance)
    );
    assert_eq!(contract.contribute_at(&a, id, START + DURATION, TransferOutcome::Failed), Err(AjoError::TransferFailed));
    assert!(contract.get_contribution_detail(id, 1, &a).is_none());
    assert_eq!(contract.get_cycle_penalty_pool(id, 1), 0);
    assert_eq!(contract.get_member_penalty_record(id, &a).late_count, 0);
    // The member can still contribute.
    assert_eq!(contract.contribute_at(&a, id, START + DURATION, TransferOutcome::Completed), Ok(()));
}

#[test]
fn the_score_is_the_share_of_on_time_contributions() {
    let (_env, mut contract, a, b, id) = group_of_two(1_000, 10);
    let cycle = DURATION + GRACE;

    // Cycle 1: a late, b on time.
    contract.contribute_at(&a, id, START + DURATION, TransferOutcome::Completed).unwrap();
    contract.contribute_at(&b, id, START, TransferOutcome::Completed).unwrap();
    assert_eq!(contract.get_member_penalty_record(id, &a).reliability_score, 0);
    assert_eq!(contract.get_member_penalty_record(id, &b).reliability_score, 100);
    contract.execute_payout_at(id, START + cycle, TransferOutcome::Completed).unwrap();

    // Cycle 2: a on time, b late.
    contract.contribute_at(&a, id, START + cycle, TransferOutcome::Completed).unwrap();
    contract.contribute_at(&b, id, START + cycle + DURATION, TransferOutcome::Completed).unwrap();
    assert_eq!(contract.get_member_penalty_record(id, &a).reliability_score, 50);
    assert_eq!(contract.get_member_penalty_record(id, &b).reliability_score, 50);
    contract.execute_payout_at(id, START + 2 * cycle, TransferOutcome::Completed).unwrap();

    // Cycle 3: a late, b on time: 1 of 3 and 2 of 3.
    contract.contribute_at(&a, id, START + 2 * cycle + DURATION, TransferOutcome::Completed).unwrap();
    contract.contribute_at(&b, id, START + 2 * cycle, TransferOutcome::Completed).unwrap();
    let a_record = contract.get_member_penalty_record(id, &a);
    let b_record = contract.get_member_penalty_record(id, &b);
    assert_eq!((a_record.on_time_count, a_record.late_count), (1, 2));
    assert_eq!(a_record.reliability_score, 33);
    assert_eq!(a_record.total_penalties, 200);
    assert_eq!((b_record.on_time_count, b_record.late_count), (2, 1));
    assert_eq!(b_record.reliability_score, 66);
    assert_eq!(b_record.total_penalties, 100);
    assert_eq!(b_record.member, b);
    assert_eq!(b_record.group_id, id);
}

#[test]
fn records_of_different_groups_are_kept_apart() {
    let env = Env::new_with_config(EnvTestConfig { capture_snapshot_at_drop: false });
    let mut contract = AjoContract::new(Address::generate(&env));
    let a = Address::generate(&env);
    let first = contract.create_group_at(&env, &a, 1_000, DURATION, 5, GRACE, 10, START).unwrap();
    let second = contract.create_group_at(&env, &a, 2_000, DURATION, 5, GRACE, 50, START).unwrap();

    contract.contribute_at(&a, first, START + DURATION, TransferOutcome::Completed).unwrap();
    contract.contribute_at(&a, second, START + DURATION, TransferOutcome::Completed).unwrap();
    assert_eq!(contract.get_cycle_penalty_pool(first, 1), 100);
    assert_eq!(contract.get_cycle_penalty_pool(second, 1), 1_000);
    assert_eq!(contract.get_member_penalty_record(first, &a).total_penalties, 100);
    assert_eq!(contract.get_member_penalty_record(second, &a).total_penalties, 1_000);
    assert_eq!(contract.get_contribution_detail(first, 1, &a).unwrap().penalty_amount, 100);
    assert_eq!(contract.get_contribution_detail(second, 1, &a).unwrap().penalty_amount, 1_000);
}
