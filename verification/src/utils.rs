//! Validation of the terms of a group, the windows of a cycle, penalties and
//! the punctuality record of a member.

use crate::errors::AjoError;
use crate::host::{same_address, slot_at, slot_count, slots};
use crate::tables::{
    find_contribution, find_penalty_record, first_penalty_record_at, has_contributed, has_penalty_record,
    penalty_key, penalty_record_index, penalty_record_of,
};
use crate::types::{
    addresses, holds_addresses, ContributionRecord, Group, GroupView, MemberPenaltyRecord,
    MAX_GRACE_PERIOD, MAX_MEMBERS_LIMIT, MAX_PENALTY_RATE, MIN_MEMBERS,
};
use soroban_sdk::Address;
use vstd::prelude::*;

pub use crate::host::get_current_timestamp;

verus! {

/// What is found of the terms of a new group: the first rule that they
/// break, in the order amount, duration, size.
pub open spec fn group_params_verdict(amount: i128, duration: u64, max_members: u32) -> Result<(), AjoError> {
    if amount == 0 {
        Err(AjoError::ContributionAmountZero)
    } else if amount < 0 {
        Err(AjoError::ContributionAmountNegative)
    } else if duration == 0 {
        Err(AjoError::CycleDurationZero)
    } else if max_members < MIN_MEMBERS {
        Err(AjoError::MaxMembersBelowMinimum)
    } else if max_members > MAX_MEMBERS_LIMIT {
        Err(AjoError::MaxMembersAboveLimit)
    } else {
        Ok(())
    }
}

/// What is found of the penalty terms of a new group: the first rule that
/// they break, in the order grace period, rate.
pub open spec fn penalty_params_verdict(grace_period: u64, penalty_rate: u32) -> Result<(), AjoError> {
    if grace_period > MAX_GRACE_PERIOD {
        Err(AjoError::InvalidGracePeriod)
    } else if penalty_rate > MAX_PENALTY_RATE {
        Err(AjoError::InvalidPenaltyRate)
    } else {
        Ok(())
    }
}

/// The penalty on a late contribution: `rate` percent of `amount`, rounded
/// towards zero.
pub open spec fn penalty_of(amount: int, rate: int) -> int {
    if amount >= 0 {
        (amount * rate) / 100
    } else {
        -((-amount * rate) / 100)
    }
}

/// The penalty can be written as an `i128`.
pub open spec fn penalty_fits(amount: i128, rate: u32) -> bool {
    i128::MIN <= penalty_of(amount as int, rate as int) <= i128::MAX
}

/// Whether a contribution to `g` at `t` is late, and the penalty on it: on
/// time in the cycle, late with the penalty in the grace period, and late
/// without one outside both, where no contribution is taken.
pub open spec fn contribution_timing(g: GroupView, t: u64) -> (bool, int) {
    if g.in_cycle_window(t) {
        (false, 0)
    } else if g.in_grace_period(t) {
        (true, penalty_of(g.contribution_amount as int, g.penalty_rate as int))
    } else {
        (true, 0)
    }
}

/// The share of contributions made on time, in percent, rounded down; 100
/// where there is none yet.
pub open spec fn reliability_of(on_time: int, late: int) -> int {
    if on_time + late > 0 {
        (on_time * 100) / (on_time + late)
    } else {
        100
    }
}

/// The record after one more contribution was counted: one more late or on
/// time, the penalty added, and the score computed anew.
pub open spec fn penalty_record_updated(prev: MemberPenaltyRecord, is_late: bool, penalty: i128) -> MemberPenaltyRecord {
    let late = prev.late_count + if is_late { 1int } else { 0int };
    let on_time = prev.on_time_count + if is_late { 0int } else { 1int };
    MemberPenaltyRecord {
        member: prev.member,
        group_id: prev.group_id,
        late_count: late as u32,
        on_time_count: on_time as u32,
        total_penalties: (prev.total_penalties + penalty) as i128,
        reliability_score: reliability_of(on_time, late) as u32,
    }
}

/// Counting one more contribution keeps the record within its machine
/// types.
pub open spec fn penalty_update_fits(prev: MemberPenaltyRecord, is_late: bool, penalty: i128) -> bool {
    &&& is_late ==> prev.late_count < u32::MAX
    &&& !is_late ==> prev.on_time_count < u32::MAX
    &&& i128::MIN <= prev.total_penalties + penalty <= i128::MAX
}

/// The penalty records after a contribution of `member` in group
/// `group_id` was counted: the member's record is updated where it stands,
/// or put behind the others where the member had none.
pub open spec fn penalty_recorded(
    s: Seq<MemberPenaltyRecord>,
    group_id: u64,
    member: Address,
    is_late: bool,
    penalty: i128,
) -> Seq<MemberPenaltyRecord> {
    let next = penalty_record_updated(penalty_record_of(s, group_id, member), is_late, penalty);
    if has_penalty_record(s, group_id, member) {
        s.update(penalty_record_index(s, group_id, member), next)
    } else {
        s.push(next)
    }
}

/// The whole hundreds and the rest of a non-negative amount are charged
/// separately.
proof fn lemma_penalty_split(amount: int, rate: int)
    requires
        0 <= amount,
        0 <= rate,
    ensures
        penalty_of(amount, rate) == (amount / 100) * rate + ((amount % 100) * rate) / 100,
        0 <= (amount / 100) * rate <= penalty_of(amount, rate),
        0 <= ((amount % 100) * rate) / 100 <= penalty_of(amount, rate),
        0 <= (amount % 100) * rate <= 99 * rate,
{
    let q = amount / 100;
    let m = amount % 100;
    assert(amount * rate == 100 * (q * rate) + m * rate) by (nonlinear_arith)
        requires
            amount == 100 * q + m,
    ;
    assert(0 <= m * rate <= 99 * rate) by (nonlinear_arith)
        requires
            0 <= m <= 99,
            0 <= rate,
    ;
    assert(0 <= q * rate) by (nonlinear_arith)
        requires
            0 <= q,
            0 <= rate,
    ;
    let k = q * rate;
    let x = m * rate;
    assert((100 * k + x) / 100 == k + x / 100) by (nonlinear_arith);
    assert(x / 100 >= 0) by (nonlinear_arith)
        requires
            x >= 0,
    ;
}

/// The parts that the machine computes, the quotient and the remainder
/// taken towards zero: both fit, and so does their sum, which is the
/// penalty.
proof fn lemma_penalty_parts(amount: int, rate: int)
    requires
        i128::MIN <= amount <= i128::MAX,
        0 <= rate <= u32::MAX,
        i128::MIN <= penalty_of(amount, rate) <= i128::MAX,
    ensures
        ({
            let q = if amount >= 0 { amount / 100 } else { -((-amount) / 100) };
            let m = if amount >= 0 { amount % 100 } else { -((-amount) % 100) };
            let part = if m * rate >= 0 { (m * rate) / 100 } else { -((-(m * rate)) / 100) };
            &&& i128::MIN <= q * rate <= i128::MAX
            &&& i128::MIN <= m * rate <= i128::MAX
            &&& i128::MIN <= part <= i128::MAX
            &&& q * rate + part == penalty_of(amount, rate)
        }),
{
    if amount >= 0 {
        lemma_penalty_split(amount, rate);
    } else {
        let a = -amount;
        lemma_penalty_split(a, rate);
        let q = a / 100;
        let m = a % 100;
        assert((-q) * rate == -(q * rate)) by (nonlinear_arith);
        assert((-m) * rate == -(m * rate)) by (nonlinear_arith);
        assert(penalty_of(amount, rate) == -penalty_of(a, rate));
    }
}

/// A rate of at most a hundred percent gives a penalty of at most the
/// amount.
pub proof fn lemma_penalty_bounded(amount: int, rate: int)
    requires
        0 <= amount,
        0 <= rate <= 100,
    ensures
        0 <= penalty_of(amount, rate) <= amount,
{
    assert(0 <= amount * rate <= amount * 100) by (nonlinear_arith)
        requires
            0 <= amount,
            0 <= rate <= 100,
    ;
    assert((amount * rate) / 100 <= (amount * 100) / 100) by (nonlinear_arith)
        requires
            amount * rate <= amount * 100,
    ;
    assert((amount * 100) / 100 == amount) by (nonlinear_arith);
    assert((amount * rate) / 100 >= 0) by (nonlinear_arith)
        requires
            amount * rate >= 0,
    ;
}

/// Counts a contribution of `member` in group `group_id` in the member's
/// penalty record, which is created where the member has none yet.
pub fn update_member_penalty_record(
    records: &mut Vec<MemberPenaltyRecord>,
    group_id: u64,
    member: &Address,
    is_late: bool,
    penalty_amount: i128,
)
    requires
        penalty_update_fits(penalty_record_of(old(records)@, group_id, *member), is_late, penalty_amount),
    ensures
        final(records)@ == penalty_recorded(old(records)@, group_id, *member, is_late, penalty_amount),
        penalty_record_of(final(records)@, group_id, *member) == penalty_record_updated(
            penalty_record_of(old(records)@, group_id, *member),
            is_late,
            penalty_amount,
        ),
{
    let found = find_penalty_record(records, group_id, member);
    let (late_before, on_time_before, total_before) = match found {
        Some(i) => (records[i].late_count, records[i].on_time_count, records[i].total_penalties),
        None => (0u32, 0u32, 0i128),
    };
    let late_count: u32 = if is_late {
        late_before + 1
    } else {
        late_before
    };
    let on_time_count: u32 = if is_late {
        on_time_before
    } else {
        on_time_before + 1
    };
    let total_contributions: u64 = on_time_count as u64 + late_count as u64;
    let scaled: u64 = on_time_count as u64 * 100;
    proof {
        lemma_reliability_range(on_time_count as int, late_count as int);
    }
    let reliability_score: u32 = (scaled / total_contributions) as u32;
    let next = MemberPenaltyRecord {
        member: member.clone(),
        group_id,
        late_count,
        on_time_count,
        total_penalties: total_before + penalty_amount,
        reliability_score,
    };
    match found {
        Some(i) => {
            records.set(i, next);
            proof {
                lemma_updated_record_found(old(records)@, group_id, *member, i as int, next);
            }
        },
        None => {
            records.push(next);
            proof {
                lemma_pushed_record_found(old(records)@, group_id, *member, next);
            }
        },
    }
}

/// A score lies between 0 and 100.
pub proof fn lemma_reliability_range(on_time: int, late: int)
    requires
        0 <= on_time,
        0 <= late,
    ensures
        0 <= reliability_of(on_time, late) <= 100,
{
    if on_time + late > 0 {
        let total = on_time + late;
        assert(0 <= (on_time * 100) / total <= 100) by (nonlinear_arith)
            requires
                0 <= on_time <= total,
                total > 0,
        ;
    }
}

/// A record written over the first record of its key is the record of that
/// key.
pub proof fn lemma_updated_record_found(
    s: Seq<MemberPenaltyRecord>,
    group_id: u64,
    member: Address,
    i: int,
    next: MemberPenaltyRecord,
)
    requires
        first_penalty_record_at(s, group_id, member, i),
        penalty_key(next, group_id, member),
    ensures
        has_penalty_record(s.update(i, next), group_id, member),
        penalty_record_of(s.update(i, next), group_id, member) == next,
{
    let t = s.update(i, next);
    assert(penalty_key(t[i], group_id, member));
    assert forall|j: int| 0 <= j < i implies !#[trigger] penalty_key(t[j], group_id, member) by {
        assert(t[j] == s[j]);
    }
    assert(first_penalty_record_at(t, group_id, member, i));
    let k = penalty_record_index(t, group_id, member);
    assert(first_penalty_record_at(t, group_id, member, k));
    assert(k == i);
}

/// A record put behind a table that has none of its key is the record of
/// that key.
pub proof fn lemma_pushed_record_found(s: Seq<MemberPenaltyRecord>, group_id: u64, member: Address, next: MemberPenaltyRecord)
    requires
        !has_penalty_record(s, group_id, member),
        penalty_key(next, group_id, member),
    ensures
        has_penalty_record(s.push(next), group_id, member),
        penalty_record_of(s.push(next), group_id, member) == next,
{
    let t = s.push(next);
    let i = s.len() as int;
    assert(penalty_key(t[i], group_id, member));
    assert forall|j: int| 0 <= j < i implies !#[trigger] penalty_key(t[j], group_id, member) by {
        assert(t[j] == s[j]);
    }
    assert(first_penalty_record_at(t, group_id, member, i));
    let k = penalty_record_index(t, group_id, member);
    assert(first_penalty_record_at(t, group_id, member, k));
    assert(k == i);
}

/// Checks the terms of a new group: a positive amount, a positive cycle
/// duration, and room for two to a hundred members.
pub fn validate_group_params(amount: i128, duration: u64, max_members: u32) -> (verdict: Result<(), AjoError>)
    ensures
        verdict == group_params_verdict(amount, duration, max_members),
{
    if amount == 0 {
        return Err(AjoError::ContributionAmountZero);
    } else if amount < 0 {
        return Err(AjoError::ContributionAmountNegative);
    }
    if duration == 0 {
        return Err(AjoError::CycleDurationZero);
    }
    if max_members < MIN_MEMBERS {
        return Err(AjoError::MaxMembersBelowMinimum);
    }
    if max_members > MAX_MEMBERS_LIMIT {
        return Err(AjoError::MaxMembersAboveLimit);
    }
    Ok(())
}

/// Whether a contribution to `group` at `current_time` is late, and the
/// penalty on it.
pub fn check_contribution_timing(group: &Group, current_time: u64) -> (timing: (bool, i128))
    requires
        group@.in_grace_period(current_time) ==> penalty_fits(group.contribution_amount, group.penalty_rate),
    ensures
        (timing.0, timing.1 as int) == contribution_timing(group@, current_time),
{
    if is_within_cycle_window(group, current_time) {
        (false, 0)
    } else if is_within_grace_period(group, current_time) {
        let penalty = calculate_penalty(group.contribution_amount, group.penalty_rate);
        (true, penalty)
    } else {
        (true, 0)
    }
}

/// Checks the penalty terms of a new group: a grace period of at most
/// seven days and a rate of at most a hundred percent.
pub fn validate_penalty_params(grace_period: u64, penalty_rate: u32) -> (verdict: Result<(), AjoError>)
    ensures
        verdict == penalty_params_verdict(grace_period, penalty_rate),
{
    if grace_period > MAX_GRACE_PERIOD {
        return Err(AjoError::InvalidGracePeriod);
    }
    if penalty_rate > MAX_PENALTY_RATE {
        return Err(AjoError::InvalidPenaltyRate);
    }
    Ok(())
}

/// Returns `true` if every member of the group has contributed in its
/// current cycle.
pub fn all_members_contributed(contributions: &Vec<ContributionRecord>, group: &Group) -> (all: bool)
    ensures
        all == forall|i: int|
            0 <= i < slots(group.members).len() && (#[trigger] slots(group.members)[i]) is Some
                ==> has_contributed(
                contributions@,
                group.id,
                group.current_cycle,
                slots(group.members)[i].unwrap(),
            ),
        holds_addresses(group.members) ==> all == forall|i: int|
            0 <= i < group@.members.len() ==> has_contributed(
                contributions@,
                group.id,
                group.current_cycle,
                #[trigger] group@.members[i],
            ),
{
    let n = slot_count(&group.members);
    let mut i: u32 = 0;
    while i < n
        invariant
            i <= n,
            n == slots(group.members).len(),
            forall|j: int|
                0 <= j < i && (#[trigger] slots(group.members)[j]) is Some ==> has_contributed(
                    contributions@,
                    group.id,
                    group.current_cycle,
                    slots(group.members)[j].unwrap(),
                ),
        decreases n - i,
    {
        if let Some(member) = slot_at(&group.members, i) {
            if find_contribution(contributions, group.id, group.current_cycle, &member).is_none() {
                proof {
                    if holds_addresses(group.members) {
                        assert(group@.members[i as int] == member);
                    }
                }
                return false;
            }
        }
        i += 1;
    }
    proof {
        if holds_addresses(group.members) {
            assert forall|k: int| 0 <= k < group@.members.len() implies has_contributed(
                contributions@,
                group.id,
                group.current_cycle,
                #[trigger] group@.members[k],
            ) by {
                assert(slots(group.members)[k] is Some);
            }
        }
    }
    true
}

/// The start and the end of the running cycle of `group`.
pub fn get_cycle_window(group: &Group, _current_time: u64) -> (window: (u64, u64))
    requires
        group@.cycle_end() <= u64::MAX,
    ensures
        window.0 == group.cycle_start_time,
        window.1 == group@.cycle_end(),
{
    let cycle_start = group.cycle_start_time;
    let cycle_end = cycle_start + group.cycle_duration;
    (cycle_start, cycle_end)
}

/// Returns `true` if `current_time` lies in the running cycle of `group`:
/// at or after its start and before its end.
pub fn is_within_cycle_window(group: &Group, current_time: u64) -> (within: bool)
    ensures
        within == group@.in_cycle_window(current_time),
{
    let cycle_end: u128 = group.cycle_start_time as u128 + group.cycle_duration as u128;
    current_time >= group.cycle_start_time && (current_time as u128) < cycle_end
}

/// Returns `true` if `current_time` lies in the grace period of the
/// running cycle of `group`: at or after the end of the cycle and before
/// the end of the grace period.
pub fn is_within_grace_period(group: &Group, current_time: u64) -> (within: bool)
    ensures
        within == group@.in_grace_period(current_time),
{
    let cycle_end: u128 = group.cycle_start_time as u128 + group.cycle_duration as u128;
    let grace_end: u128 = cycle_end + group.grace_period as u128;
    current_time as u128 >= cycle_end && (current_time as u128) < grace_end
}

/// When the grace period of the running cycle of `group` ends.
pub fn get_grace_period_end(group: &Group) -> (end: u64)
    requires
        group@.grace_end() <= u64::MAX,
    ensures
        end == group@.grace_end(),
{
    group.cycle_start_time + group.cycle_duration + group.grace_period
}

/// Returns `true` if at `current_time` the grace period of the running
/// cycle of `group` is over.
pub fn is_past_grace_period(group: &Group, current_time: u64) -> (past: bool)
    ensures
        past == (current_time >= group@.grace_end()),
{
    let grace_end: u128 = group.cycle_start_time as u128 + group.cycle_duration as u128
        + group.grace_period as u128;
    current_time as u128 >= grace_end
}

/// The penalty on a late contribution of `contribution_amount` at
/// `penalty_rate` percent, rounded towards zero.
pub fn calculate_penalty(contribution_amount: i128, penalty_rate: u32) -> (penalty: i128)
    requires
        penalty_fits(contribution_amount, penalty_rate),
    ensures
        penalty == penalty_of(contribution_amount as int, penalty_rate as int),
{
    let rate = penalty_rate as i128;
    let hundreds = contribution_amount / 100;
    let rest = contribution_amount % 100;
    proof {
        lemma_penalty_parts(contribution_amount as int, rate as int);
    }
    let whole = hundreds * rate;
    let part = (rest * rate) / 100;
    whole + part
}

/// What the members of `group` pay together in a cycle: the contribution
/// amount times the number of members.
pub fn calculate_payout_amount(group: &Group) -> (amount: i128)
    requires
        i128::MIN <= group.contribution_amount * slots(group.members).len() <= i128::MAX,
    ensures
        amount == group.contribution_amount * slots(group.members).len(),
{
    let member_count = slot_count(&group.members) as i128;
    group.contribution_amount * member_count
}

/// Returns `true` if `address` is held by `members`.
pub fn is_member(members: &soroban_sdk::Vec<Address>, address: &Address) -> (found: bool)
    ensures
        found == slots(*members).contains(Some(*address)),
        holds_addresses(*members) ==> found == addresses(*members).contains(*address),
{
    let n = slot_count(members);
    let mut i: u32 = 0;
    while i < n
        invariant
            i <= n,
            n == slots(*members).len(),
            forall|j: int| 0 <= j < i ==> slots(*members)[j] != Some(*address),
        decreases n - i,
    {
        if let Some(member) = slot_at(members, i) {
            if same_address(&member, address) {
                proof {
                    if holds_addresses(*members) {
                        lemma_membership(*members, *address);
                    }
                }
                return true;
            }
        }
        i += 1;
    }
    proof {
        if holds_addresses(*members) {
            lemma_membership(*members, *address);
        }
    }
    false
}

/// Among addresses, to be held in a position and to occur in the sequence
/// of addresses is the same.
pub proof fn lemma_membership(members: soroban_sdk::Vec<Address>, address: Address)
    requires
        holds_addresses(members),
    ensures
        slots(members).contains(Some(address)) == addresses(members).contains(address),
{
    if slots(members).contains(Some(address)) {
        let i = choose|i: int| 0 <= i < slots(members).len() && slots(members)[i] == Some(address);
        assert(addresses(members)[i] == address);
    }
    if addresses(members).contains(address) {
        let i = choose|i: int| 0 <= i < addresses(members).len() && addresses(members)[i] == address;
        assert(slots(members)[i] is Some);
        assert(slots(members)[i] == Some(address));
    }
}

} // verus!
