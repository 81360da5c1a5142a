use soroban_ajo::contract::AjoContract;
use soroban_ajo::tables::{
    credit_penalty_pool, find_contribution, find_payout, find_penalty_record, find_pool, penalty_pool,
};
use soroban_ajo::types::{
    ContributionRecord, CyclePenaltyPool, Group, MemberPenaltyRecord, PayoutRecord, TransferOutcome,
};
use soroban_ajo::utils::{
    all_members_contributed, calculate_payout_amount, check_contribution_timing, get_cycle_window,
    get_grace_period_end, is_member, is_past_grace_period, is_within_cycle_window, is_within_grace_period,
    update_member_penalty_record,
};
use soroban_sdk::testutils::{Address as _, EnvTestConfig};
use soroban_sdk::{Address, Env};

fn new_env() -> Env {
    Env::new_with_config(EnvTestConfig { capture_snapshot_at_drop: false })
}

/// A group of 1_000 at 10 percent that starts at 1_000, runs 500 seconds
/// and allows 100 seconds of grace.
fn group_with(env: &Env, members: &[Address]) -> Group {
    Group {
        id: 1,
        creator: members[0].clone(),
        contribution_amount: 1_000,
        cycle_duration: 500,
        max_members: 10,
        members: soroban_sdk::Vec::from_slice(env, members),
        current_cycle: 1,
        payout_index: 0,
        created_at: 1_000,
        cycle_start_time: 1_000,
        is_complete: false,
        grace_period: 100,
        penalty_rate: 10,
    }
}

fn contribution(member: &Address, group_id: u64, cycle: u32) -> ContributionRecord {
    ContributionRecord {
        member: member.clone(),
        group_id,
        cycle,
        has_paid: true,
        timestamp: 0,
        is_late: false,
        penalty_amount: 0,
    }
}

#[test]
fn membership_is_found_by_address() {
    let env = new_env();
    let a = Address::generate(&env);
    let b = Address::generate(&env);
    let c = Address::generate(&env);

    let none: soroban_sdk::Vec<Address> = soroban_sdk::Vec::new(&env);
    assert!(!is_member(&none, &a));
    let two = soroban_sdk::Vec::from_array(&env, [a.clone(), b.clone()]);
    assert!(is_member(&two, &a));
    assert!(is_member(&two, &b));
    assert!(is_member(&two, &b.clone()));
    assert!(!is_member(&two, &c));
}

#[test]
fn the_windows_of_a_cycle() {
    let env = new_env();
    let a = Address::generate(&env);
    let group = group_with(&env, &[a]);

    assert_eq!(get_cycle_window(&group, 0), (1_000, 1_500));
    assert_eq!(get_cycle_window(&group, 99_999), (1_000, 1_500));
    assert_eq!(get_grace_period_end(&group), 1_600);

    assert!(!is_within_cycle_window(&group, 999));
    assert!(is_within_cycle_window(&group, 1_000));
    assert!(is_within_cycle_window(&group, 1_499));
    assert!(!is_within_cycle_window(&group, 1_500));

    assert!(!is_within_grace_period(&group, 1_499));
    assert!(is_within_grace_period(&group, 1_500));
    assert!(is_within_grace_period(&group, 1_599));
    assert!(!is_within_grace_period(&group, 1_600));

    assert!(!is_past_grace_period(&group, 1_599));
    assert!(is_past_grace_period(&group, 1_600));
    assert!(is_past_grace_period(&group, u64::MAX));
}

#[test]
fn the_windows_of_a_cycle_at_the_end_of_time() {
    let env = new_env();
    let a = Address::generate(&env);
    let mut group = group_with(&env, &[a]);
    group.cycle_start_time = u64::MAX - 10;
    group.cycle_duration = u64::MAX;
    group.grace_period = 604_800;

    assert!(!is_within_cycle_window(&group, u64::MAX - 11));
    assert!(is_within_cycle_window(&group, u64::MAX - 10));
    assert!(is_within_cycle_window(&group, u64::MAX));
    assert!(!is_within_grace_period(&group, u64::MAX));
    assert!(!is_past_grace_period(&group, u64::MAX));
}

#[test]
fn an_empty_grace_period_takes_no_late_contribution() {
    let env = new_env();
    let a = Address::generate(&env);
    let mut group = group_with(&env, &[a]);
    group.grace_period = 0;

    assert!(is_within_cycle_window(&group, 1_499));
    assert!(!is_within_grace_period(&group, 1_500));
    assert!(is_past_grace_period(&group, 1_500));
    assert_eq!(check_contribution_timing(&group, 1_500), (true, 0));
}

#[test]
fn the_timing_of_a_contribution() {
    let env = new_env();
    let a = Address::generate(&env);
    let group = group_with(&env, &[a]);

    assert_eq!(check_contribution_timing(&group, 1_000), (false, 0));
    assert_eq!(check_contribution_timing(&group, 1_499), (false, 0));
    assert_eq!(check_contribution_timing(&group, 1_500), (true, 100));
    assert_eq!(check_contribution_timing(&group, 1_599), (true, 100));
    assert_eq!(check_contribution_timing(&group, 1_600), (true, 0));
    assert_eq!(check_contribution_timing(&group, 999), (true, 0));
}

#[test]
fn the_payout_is_the_amount_times_the_members() {
    let env = new_env();
    let a = Address::generate(&env);
    let b = Address::generate(&env);
    let c = Address::generate(&env);

    assert_eq!(calculate_payout_amount(&group_with(&env, &[a.clone()])), 1_000);
    assert_eq!(calculate_payout_amount(&group_with(&env, &[a.clone(), b.clone()])), 2_000);
    let mut group = group_with(&env, &[a, b, c]);
    group.contribution_amount = 100_000_000;
    assert_eq!(calculate_payout_amount(&group), 300_000_000);
}

#[test]
fn all_members_have_contributed_only_when_each_has() {
    let env = new_env();
    let a = Address::generate(&env);
    let b = Address::generate(&env);
    let mut group = group_with(&env, &[a.clone(), b.clone()]);

    let mut contributions = Vec::new();
    assert!(!all_members_contributed(&contributions, &group));
    contributions.push(contribution(&a, 1, 1));
    assert!(!all_members_contributed(&contributions, &group));
    // Another group and another cycle do not count.
    contributions.push(contribution(&b, 2, 1));
    contributions.push(contribution(&b, 1, 2));
    assert!(!all_members_contributed(&contributions, &group));
    contributions.push(contribution(&b, 1, 1));
    assert!(all_members_contributed(&contributions, &group));

    group.current_cycle = 2;
    assert!(!all_members_contributed(&contributions, &group));
    contributions.push(contribution(&a, 1, 2));
    assert!(all_members_contributed(&contributions, &group));
}

#[test]
fn all_members_contributed_follows_the_contract() {
    let env = new_env();
    let a = Address::generate(&env);
    let b = Address::generate(&env);
    let mut contract = AjoContract::new(Address::generate(&env));
    let id = contract.create_group_at(&env, &a, 1_000, 500, 2, 100, 10, 1_000).unwrap();
    contract.join_group(&b, &b, id).unwrap();
    contract.contribute_at(&a, id, 1_000, TransferOutcome::Completed).unwrap();
    contract.contribute_at(&b, id, 1_001, TransferOutcome::Completed).unwrap();

    let group = contract.get_group(id).unwrap();
    let records = vec![
        contract.get_contribution_detail(id, 1, &a).unwrap(),
        contract.get_contribution_detail(id, 1, &b).unwrap(),
    ];
    assert!(all_members_contributed(&records, group));
    assert!(!all_members_contributed(&records[..1].to_vec(), group));
}

#[test]
fn a_penalty_record_is_created_and_then_updated() {
    let env = new_env();
    let a = Address::generate(&env);
    let b = Address::generate(&env);
    let mut records: Vec<MemberPenaltyRecord> = Vec::new();

    update_member_penalty_record(&mut records, 7, &a, false, 0);
    assert_eq!(records.len(), 1);
    assert_eq!(records[0].member, a);
    assert_eq!(records[0].group_id, 7);
    assert_eq!((records[0].on_time_count, records[0].late_count), (1, 0));
    assert_eq!((records[0].total_penalties, records[0].reliability_score), (0, 100));

    update_member_penalty_record(&mut records, 7, &a, true, 30);
    assert_eq!(records.len(), 1);
    assert_eq!((records[0].on_time_count, records[0].late_count), (1, 1));
    assert_eq!((records[0].total_penalties, records[0].reliability_score), (30, 50));

    update_member_penalty_record(&mut records, 7, &a, true, 12);
    assert_eq!((records[0].on_time_count, records[0].late_count), (1, 2));
    assert_eq!((records[0].total_penalties, records[0].reliability_score), (42, 33));

    // Another member and another group get records of their own.
    update_member_penalty_record(&mut records, 7, &b, true, 5);
    update_member_penalty_record(&mut records, 8, &a, false, 0);
    assert_eq!(records.len(), 3);
    assert_eq!((records[0].on_time_count, records[0].late_count, records[0].total_penalties), (1, 2, 42));
    assert_eq!((records[1].group_id, records[1].late_count, records[1].reliability_score), (7, 1, 0));
    assert_eq!(records[1].member, b);
    assert_eq!((records[2].group_id, records[2].on_time_count, records[2].reliability_score), (8, 1, 100));
    assert_eq!(find_penalty_record(&records, 7, &a), Some(0));
    assert_eq!(find_penalty_record(&records, 7, &b), Some(1));
    assert_eq!(find_penalty_record(&records, 8, &a), Some(2));
    assert_eq!(find_penalty_record(&records, 8, &b), None);
}

#[test]
fn a_penalty_is_added_with_every_contribution_that_carries_one() {
    let env = new_env();
    let a = Address::generate(&env);
    let mut records: Vec<MemberPenaltyRecord> = Vec::new();

    update_member_penalty_record(&mut records, 1, &a, false, 5);
    assert_eq!((records[0].on_time_count, records[0].late_count, records[0].total_penalties), (1, 0, 5));
    update_member_penalty_record(&mut records, 1, &a, true, 0);
    assert_eq!((records[0].on_time_count, records[0].late_count, records[0].total_penalties), (1, 1, 5));
    assert_eq!(records[0].reliability_score, 50);
}

#[test]
fn the_score_is_rounded_down() {
    let env = new_env();
    let a = Address::generate(&env);
    let mut records: Vec<MemberPenaltyRecord> = Vec::new();

    // Two on time, then one late: 2 of 3 is 66, not 67.
    update_member_penalty_record(&mut records, 1, &a, false, 0);
    update_member_penalty_record(&mut records, 1, &a, false, 0);
    update_member_penalty_record(&mut records, 1, &a, true, 1);
    assert_eq!(records[0].reliability_score, 66);
    // Counts near the limit of their type.
    records[0].on_time_count = u32::MAX - 1;
    records[0].late_count = 1;
    update_member_penalty_record(&mut records, 1, &a, false, 0);
    assert_eq!(records[0].on_time_count, u32::MAX);
    assert_eq!(records[0].reliability_score, 99);
}

#[test]
fn a_pool_is_opened_and_then_credited() {
    let mut pools: Vec<CyclePenaltyPool> = Vec::new();

    assert_eq!(penalty_pool(&pools, 1, 1), 0);
    assert_eq!(find_pool(&pools, 1, 1), None);
    credit_penalty_pool(&mut pools, 1, 1, 50);
    credit_penalty_pool(&mut pools, 1, 2, 7);
    credit_penalty_pool(&mut pools, 1, 1, 25);
    credit_penalty_pool(&mut pools, 2, 1, 0);
    assert_eq!(pools.len(), 3);
    assert_eq!(penalty_pool(&pools, 1, 1), 75);
    assert_eq!(penalty_pool(&pools, 1, 2), 7);
    assert_eq!(penalty_pool(&pools, 2, 1), 0);
    assert_eq!(penalty_pool(&pools, 2, 2), 0);
    assert_eq!(find_pool(&pools, 1, 2), Some(1));
    assert_eq!(find_pool(&pools, 2, 2), None);
}

#[test]
fn records_are_found_by_their_key() {
    let env = new_env();
    let a = Address::generate(&env);
    let b = Address::generate(&env);

    let contributions = vec![contribution(&a, 1, 1), contribution(&b, 1, 1), contribution(&a, 1, 2)];
    assert_eq!(find_contribution(&contributions, 1, 1, &a), Some(0));
    assert_eq!(find_contribution(&contributions, 1, 1, &b), Some(1));
    assert_eq!(find_contribution(&contributions, 1, 2, &a), Some(2));
    assert_eq!(find_contribution(&contributions, 1, 2, &b), None);
    assert_eq!(find_contribution(&contributions, 2, 1, &a), None);

    let payouts = vec![
        PayoutRecord { member: a.clone(), group_id: 1, cycle: 1, amount: 10, timestamp: 5 },
        PayoutRecord { member: b.clone(), group_id: 1, cycle: 2, amount: 10, timestamp: 6 },
    ];
    assert_eq!(find_payout(&payouts, 1, 1), Some(0));
    assert_eq!(find_payout(&payouts, 1, 2), Some(1));
    assert_eq!(find_payout(&payouts, 1, 3), None);
    assert_eq!(find_payout(&payouts, 2, 1), None);
}
