//! The contract: the state that it keeps and the operations on it. Each
//! operation is held to the state machine of [`crate::model`].
//!
//! The contract moves no tokens itself. Where tokens are to be moved, the
//! caller asks what is due (`contribution_due_at`, `payout_due_at`), has the
//! transfer made, and hands what became of it to the operation
//! (`contribute_at`, `execute_payout_at`), which changes the state only
//! where the transfer completed.
//!
//! A few sums may not fit their machine types: what a contribution or a
//! payout moves, and the cycle number. The operations that take the time as
//! an argument ask the caller to rule that out, and `contribution_fits_at`
//! and `payout_fits_at` tell whether it is. The operations that read the
//! clock of the ledger test it themselves, and answer `None` where a sum
//! does not fit.

use crate::integrity::{
    contributions_are_distinct, contributions_are_in_range, group_position, groups_are_wf, lemma_parts_wf,
    parts_wf,
    payouts_are_distinct, payouts_are_in_range, payouts_cover_cycles, penalty_records_are_distinct,
    penalty_records_are_in_range, pools_are_distinct, pools_are_in_range, state_of,
};
use crate::errors::AjoError;
use crate::host::{
    empty_members, get_current_timestamp, push_member, same_address, slot_at, slot_count, slots,
};
use crate::model::{group_after_payout, new_group, penalty_at, AjoState};
use crate::pausable::{ensure_not_paused, pause, unpause, Config};
use crate::preservation::{
    lemma_counts_fit, lemma_payout_keeps_form, lemma_penalty_record_of, lemma_pool_of,
    theorem_contribute_keeps_wf, theorem_create_group_keeps_wf, theorem_execute_payout_keeps_wf,
    theorem_join_group_keeps_wf, theorem_pause_keeps_wf,
};
use crate::tables::{
    contribution_of, credit_penalty_pool, find_contribution, find_payout, find_penalty_record,
    has_penalty_record, payout_of, penalty_pool, penalty_record_index, penalty_record_of, pool_of,
};
use crate::types::{
    addresses, group_views, holds_addresses, ContributionDue, ContributionRecord, CyclePenaltyPool, Group,
    GroupStatus, MemberPenaltyRecord, PayoutDue, PayoutRecord, TransferOutcome, INITIAL_RELIABILITY_SCORE,
};
use crate::utils::{
    calculate_payout_amount, check_contribution_timing, is_member, is_past_grace_period,
    is_within_cycle_window, is_within_grace_period, lemma_penalty_bounded,
    update_member_penalty_record, validate_group_params, validate_penalty_params,
};
use soroban_sdk::{Address, Env};
use vstd::prelude::*;

verus! {

/// The state of the contract: its configuration, its groups, and the
/// tables of contributions, penalty records, penalty pools and payouts.
pub struct AjoContract {
    config: Config,
    groups: Vec<Group>,
    contributions: Vec<ContributionRecord>,
    penalty_records: Vec<MemberPenaltyRecord>,
    penalty_pools: Vec<CyclePenaltyPool>,
    payouts: Vec<PayoutRecord>,
}

impl View for AjoContract {
    type V = AjoState;

    closed spec fn view(&self) -> AjoState {
        AjoState {
            config: self.config,
            groups: group_views(self.groups@),
            contributions: self.contributions@,
            penalty_records: self.penalty_records@,
            penalty_pools: self.penalty_pools@,
            payouts: self.payouts@,
        }
    }
}

/// A group put in place of another has its content in place of the
/// other's.
proof fn lemma_group_replaced(groups: Seq<Group>, i: int, g: Group)
    requires
        0 <= i < groups.len(),
    ensures
        group_views(groups.update(i, g)) == group_views(groups).update(i, g@),
{
    assert(group_views(groups.update(i, g)) =~= group_views(groups).update(i, g@));
}

/// A group put behind the others has its content behind the others'.
proof fn lemma_group_appended(groups: Seq<Group>, g: Group)
    ensures
        group_views(groups.push(g)) == group_views(groups).push(g@),
{
    assert(group_views(groups.push(g)) =~= group_views(groups).push(g@));
}

/// An address put behind addresses stands behind them.
proof fn lemma_member_appended(before: soroban_sdk::Vec<Address>, after: soroban_sdk::Vec<Address>, member: Address)
    requires
        slots(after) == slots(before).push(Some(member)),
    ensures
        addresses(after) == addresses(before).push(member),
        holds_addresses(before) ==> holds_addresses(after),
{
    assert(addresses(after) =~= addresses(before).push(member));
}

/// Puts `group` behind `groups` and gives it its position, counted from 1,
/// as its id.
fn append_group(groups: &mut Vec<Group>, group: Group) -> (id: u64)
    ensures
        id == old(groups)@.len() + 1,
        final(groups)@ == old(groups)@.push(Group { id, ..group }),
{
    // The id is the length once the group is among the others, which is
    // known to be representable only then.
    groups.push(group);
    let id = groups.len() as u64;
    let mut placed = groups.pop().unwrap();
    placed.id = id;
    groups.push(placed);
    proof {
        assert(groups@ =~= old(groups)@.push(Group { id, ..group }));
    }
    id
}

impl AjoContract {
    /// The state is well formed, and the members of every group are
    /// addresses.
    pub closed spec fn wf(&self) -> bool {
        &&& self@.wf()
        &&& forall|i: int| 0 <= i < self.groups@.len() ==> holds_addresses((#[trigger] self.groups@[i]).members)
    }

    /// A well-formed contract has a well-formed state.
    pub proof fn lemma_wf(&self)
        requires
            self.wf(),
        ensures
            self@.wf(),
    {
    }

    /// A contract without groups, administered by `admin` and not paused.
    pub fn new(admin: Address) -> (contract: AjoContract)
        ensures
            contract.wf(),
            contract@ == AjoState::initial(admin),
    {
        let contract = AjoContract {
            config: Config { admin: Some(admin), paused: false },
            groups: Vec::new(),
            contributions: Vec::new(),
            penalty_records: Vec::new(),
            penalty_pools: Vec::new(),
            payouts: Vec::new(),
        };
        proof {
            let initial = AjoState::initial(admin);
            assert(contract@.groups =~= initial.groups);
            assert(contract@.contributions =~= initial.contributions);
            assert(contract@.penalty_records =~= initial.penalty_records);
            assert(contract@.penalty_pools =~= initial.penalty_pools);
            assert(contract@.payouts =~= initial.payouts);
        }
        contract
    }

    /// The contract made up of the given parts, where they are well formed;
    /// `None` where they are not.
    pub fn restore(
        config: Config,
        groups: Vec<Group>,
        contributions: Vec<ContributionRecord>,
        penalty_records: Vec<MemberPenaltyRecord>,
        penalty_pools: Vec<CyclePenaltyPool>,
        payouts: Vec<PayoutRecord>,
    ) -> (restored: Option<AjoContract>)
        ensures
            restored is Some == parts_wf(
                config,
                groups@,
                contributions@,
                penalty_records@,
                penalty_pools@,
                payouts@,
            ),
            restored matches Some(contract) ==> contract.wf() && contract@ == state_of(
                config,
                groups@,
                contributions@,
                penalty_records@,
                penalty_pools@,
                payouts@,
            ),
    {
        proof {
            lemma_parts_wf(config, groups@, contributions@, penalty_records@, penalty_pools@, payouts@);
        }
        if !groups_are_wf(&groups) || !contributions_are_in_range(&groups, &contributions)
            || !contributions_are_distinct(&contributions) || !payouts_are_in_range(&groups, &payouts)
            || !payouts_are_distinct(&payouts) {
            return None;
        }
        if !payouts_cover_cycles(&groups, &payouts) || !penalty_records_are_in_range(
            &groups,
            &contributions,
            &penalty_records,
        ) || !penalty_records_are_distinct(&penalty_records) {
            return None;
        }
        if !pools_are_in_range(&groups, &penalty_pools) || !pools_are_distinct(&penalty_pools) {
            return None;
        }
        Some(AjoContract { config, groups, contributions, penalty_records, penalty_pools, payouts })
    }

    /// The parts that the contract is made up of, as `restore` takes them.
    pub fn into_parts(self) -> (parts: (
        Config,
        Vec<Group>,
        Vec<ContributionRecord>,
        Vec<MemberPenaltyRecord>,
        Vec<CyclePenaltyPool>,
        Vec<PayoutRecord>,
    ))
        requires
            self.wf(),
        ensures
            self@ == state_of(parts.0, parts.1@, parts.2@, parts.3@, parts.4@, parts.5@),
            parts_wf(parts.0, parts.1@, parts.2@, parts.3@, parts.4@, parts.5@),
    {
        (self.config, self.groups, self.contributions, self.penalty_records, self.penalty_pools, self.payouts)
    }

    /// Where group `group_id` stands among the groups.
    fn group_position(&self, group_id: u64) -> (position: Option<usize>)
        ensures
            position is Some == self@.group(group_id) is Some,
            position matches Some(i) ==> i < self.groups@.len() && i == group_id - 1
                && self@.group(group_id) == Some(self.groups@[i as int]@),
    {
        group_position(&self.groups, group_id)
    }

    /// Creates a group with `creator` as its first member and its first
    /// cycle starting at `now`, and returns its id.
    pub fn create_group_at(
        &mut self,
        env: &Env,
        creator: &Address,
        amount: i128,
        duration: u64,
        max_members: u32,
        grace_period: u64,
        penalty_rate: u32,
        now: u64,
    ) -> (created: Result<u64, AjoError>)
        requires
            old(self).wf(),
        ensures
            final(self).wf(),
            old(self)@.creates_group(
                final(self)@,
                created,
                *creator,
                amount,
                duration,
                max_members,
                grace_period,
                penalty_rate,
                now,
            ),
    {
        if let Err(e) = ensure_not_paused(&self.config) {
            return Err(e);
        }
        if let Err(e) = validate_group_params(amount, duration, max_members) {
            return Err(e);
        }
        if let Err(e) = validate_penalty_params(grace_period, penalty_rate) {
            return Err(e);
        }
        let mut members = empty_members(env);
        push_member(&mut members, creator.clone());
        proof {
            assert(addresses(members) =~= seq![*creator]);
        }
        let id = append_group(
            &mut self.groups,
            Group {
                id: 0,
                creator: creator.clone(),
                contribution_amount: amount,
                cycle_duration: duration,
                max_members,
                members,
                current_cycle: 1,
                payout_index: 0,
                created_at: now,
                cycle_start_time: now,
                is_complete: false,
                grace_period,
                penalty_rate,
            },
        );
        proof {
            let group = self.groups@[id - 1];
            lemma_group_appended(old(self).groups@, group);
            assert(group@ == new_group(
                id,
                *creator,
                amount,
                duration,
                max_members,
                grace_period,
                penalty_rate,
                now,
            ));
            theorem_create_group_keeps_wf(
                old(self)@,
                *creator,
                amount,
                duration,
                max_members,
                grace_period,
                penalty_rate,
                now,
            );
            assert forall|i: int| 0 <= i < self.groups@.len() implies holds_addresses(
                (#[trigger] self.groups@[i]).members,
            ) by {
                if i < old(self).groups@.len() {
                    assert(self.groups@[i] == old(self).groups@[i]);
                }
            }
        }
        Ok(id)
    }

    /// Enrols `member` in group `group_id`. `caller` is the address whose
    /// authorization the host has verified for this call.
    pub fn join_group(&mut self, caller: &Address, member: &Address, group_id: u64) -> (joined: Result<
        (),
        AjoError,
    >)
        requires
            old(self).wf(),
        ensures
            final(self).wf(),
            joined == old(self)@.join_group_verdict(*caller, *member, group_id),
            final(self)@ == if joined is Ok {
                old(self)@.with_member_joined(*member, group_id)
            } else {
                old(self)@
            },
    {
        if let Err(e) = ensure_not_paused(&self.config) {
            return Err(e);
        }
        if !same_address(caller, member) {
            return Err(AjoError::Unauthorized);
        }
        let position = match self.group_position(group_id) {
            Some(position) => position,
            None => {
                return Err(AjoError::GroupNotFound);
            },
        };
        let group = &self.groups[position];
        if group.is_complete {
            return Err(AjoError::GroupComplete);
        }
        if is_member(&group.members, member) {
            return Err(AjoError::AlreadyMember);
        }
        if slot_count(&group.members) >= group.max_members {
            return Err(AjoError::GroupFull);
        }
        let mut members = group.members.clone();
        push_member(&mut members, member.clone());
        let enlarged = Group {
            id: group.id,
            creator: group.creator.clone(),
            contribution_amount: group.contribution_amount,
            cycle_duration: group.cycle_duration,
            max_members: group.max_members,
            members,
            current_cycle: group.current_cycle,
            payout_index: group.payout_index,
            created_at: group.created_at,
            cycle_start_time: group.cycle_start_time,
            is_complete: group.is_complete,
            grace_period: group.grace_period,
            penalty_rate: group.penalty_rate,
        };
        proof {
            lemma_member_appended(group.members, enlarged.members, *member);
            lemma_group_replaced(self.groups@, position as int, enlarged);
            theorem_join_group_keeps_wf(old(self)@, *caller, *member, group_id);
        }
        self.groups.set(position, enlarged);
        Ok(())
    }

    /// Whether a contribution of `member` to group `group_id` at `now` is
    /// taken, and if so whether it is late and what penalty is on it.
    fn contribution_timing_at(&self, member: &Address, group_id: u64, now: u64) -> (timing: Result<
        (bool, i128),
        AjoError,
    >)
        requires
            self.wf(),
        ensures
            match self@.contribution_due(*member, group_id, now) {
                Err(e) => timing == Err::<(bool, i128), AjoError>(e),
                Ok(_) => {
                    let g = self@.group(group_id)->0;
                    &&& timing == Ok::<(bool, i128), AjoError>(
                        (g.in_grace_period(now), penalty_at(g, now) as i128),
                    )
                    &&& 0 <= penalty_at(g, now) <= g.contribution_amount
                },
            },
    {
        if let Err(e) = ensure_not_paused(&self.config) {
            return Err(e);
        }
        let position = match self.group_position(group_id) {
            Some(position) => position,
            None => {
                return Err(AjoError::GroupNotFound);
            },
        };
        let group = &self.groups[position];
        proof {
            assert(self@.groups[position as int] == group@);
            assert(group@.wf());
        }
        if !is_member(&group.members, member) {
            return Err(AjoError::NotMember);
        }
        if find_contribution(&self.contributions, group_id, group.current_cycle, member).is_some() {
            return Err(AjoError::AlreadyContributed);
        }
        if !is_within_cycle_window(group, now) && !is_within_grace_period(group, now) {
            return Err(AjoError::GracePeriodExpired);
        }
        proof {
            lemma_penalty_bounded(group.contribution_amount as int, group.penalty_rate as int);
        }
        Ok(check_contribution_timing(group, now))
    }

    /// Returns `true` if what a contribution of `member` to group `group_id`
    /// at `now` moves can be written as an `i128`, as `contribution_due_at`
    /// asks.
    pub fn due_fits_at(&self, member: &Address, group_id: u64, now: u64) -> (fits: bool)
        requires
            self.wf(),
        ensures
            fits == self@.due_fits(*member, group_id, now),
    {
        let penalty = match self.contribution_timing_at(member, group_id, now) {
            Ok((_, penalty)) => penalty,
            Err(_) => {
                return true;
            },
        };
        let position = self.group_position(group_id).unwrap();
        penalty <= i128::MAX - self.groups[position].contribution_amount
    }

    /// Returns `true` if the sums that a contribution of `member` to group
    /// `group_id` at `now` forms can be written as `i128`, as
    /// `contribute_at` asks.
    pub fn contribution_fits_at(&self, member: &Address, group_id: u64, now: u64) -> (fits: bool)
        requires
            self.wf(),
        ensures
            fits == self@.contribution_fits(*member, group_id, now),
    {
        if !self.due_fits_at(member, group_id, now) {
            return false;
        }
        let penalty = match self.contribution_timing_at(member, group_id, now) {
            Ok((_, penalty)) => penalty,
            Err(_) => {
                return true;
            },
        };
        let position = self.group_position(group_id).unwrap();
        let group = &self.groups[position];
        proof {
            assert(self@.groups[position as int] == group@);
            lemma_penalty_record_of(self@.penalty_records, group_id, *member);
            lemma_pool_of(self@.penalty_pools, group_id, group.current_cycle);
            if has_penalty_record(self@.penalty_records, group_id, *member) {
                let k = penalty_record_index(self@.penalty_records, group_id, *member);
                assert(self@.penalty_record_in_range(self@.penalty_records[k]));
            }
        }
        let penalties = match find_penalty_record(&self.penalty_records, group_id, member) {
            Some(i) => self.penalty_records[i].total_penalties,
            None => 0,
        };
        if penalty > i128::MAX - penalties {
            return false;
        }
        let pool = penalty_pool(&self.penalty_pools, group_id, group.current_cycle);
        penalty <= i128::MAX - pool
    }

    /// What `member` has to pay for a contribution to group `group_id` at
    /// `now`, if one is taken. Nothing is changed.
    pub fn contribution_due_at(&self, member: &Address, group_id: u64, now: u64) -> (due: Result<
        ContributionDue,
        AjoError,
    >)
        requires
            self.wf(),
            self@.due_fits(*member, group_id, now),
        ensures
            due == self@.contribution_due(*member, group_id, now),
    {
        let (is_late, penalty_amount) = match self.contribution_timing_at(member, group_id, now) {
            Ok(timing) => timing,
            Err(e) => {
                return Err(e);
            },
        };
        let position = self.group_position(group_id).unwrap();
        let amount = self.groups[position].contribution_amount + penalty_amount;
        Ok(ContributionDue { amount, is_late, penalty_amount })
    }

    /// Takes the contribution of `member` to group `group_id` at `now`.
    /// `transfer` is what the transfer primitive answered when asked to
    /// move what `contribution_due_at` gave from the member to the pool.
    pub fn contribute_at(&mut self, member: &Address, group_id: u64, now: u64, transfer: TransferOutcome) -> (contributed:
        Result<(), AjoError>)
        requires
            old(self).wf(),
            old(self)@.contribution_fits(*member, group_id, now),
        ensures
            final(self).wf(),
            old(self)@.contributes(final(self)@, contributed, *member, group_id, now, transfer),
    {
        let due = match self.contribution_due_at(member, group_id, now) {
            Ok(due) => due,
            Err(e) => {
                return Err(e);
            },
        };
        match transfer {
            TransferOutcome::Completed => {},
            TransferOutcome::InsufficientBalance => {
                return Err(AjoError::InsufficientBalance);
            },
            TransferOutcome::Failed => {
                return Err(AjoError::TransferFailed);
            },
        }
        let position = self.group_position(group_id).unwrap();
        let cycle = self.groups[position].current_cycle;
        proof {
            assert(self@.groups[position as int] == self.groups@[position as int]@);
            lemma_counts_fit(self@, *member, group_id, now);
            theorem_contribute_keeps_wf(self@, *member, group_id, now, transfer);
        }
        self.contributions.push(
            ContributionRecord {
                member: member.clone(),
                group_id,
                cycle,
                has_paid: true,
                timestamp: now,
                is_late: due.is_late,
                penalty_amount: due.penalty_amount,
            },
        );
        update_member_penalty_record(&mut self.penalty_records, group_id, member, due.is_late, due.penalty_amount);
        credit_penalty_pool(&mut self.penalty_pools, group_id, cycle, due.penalty_amount);
        Ok(())
    }

    /// Whether the payout of group `group_id` can be made at `now`, and if
    /// so where the group stands among the groups.
    fn payout_position_at(&self, group_id: u64, now: u64) -> (position: Result<usize, AjoError>)
        requires
            self.wf(),
        ensures
            match self@.payout_due(group_id, now) {
                Err(e) => position == Err::<usize, AjoError>(e),
                Ok(_) => position is Ok && position->Ok_0 == group_id - 1 && position->Ok_0
                    < self.groups@.len() && self@.group(group_id) == Some(
                    self.groups@[position->Ok_0 as int]@,
                ),
            },
    {
        if let Err(e) = ensure_not_paused(&self.config) {
            return Err(e);
        }
        let position = match self.group_position(group_id) {
            Some(position) => position,
            None => {
                return Err(AjoError::GroupNotFound);
            },
        };
        let group = &self.groups[position];
        proof {
            assert(self@.groups[position as int] == group@);
            assert(group@.wf());
        }
        if slot_count(&group.members) == 0 {
            return Err(AjoError::NoMembers);
        }
        if !is_past_grace_period(group, now) {
            return Err(AjoError::OutsideCycleWindow);
        }
        if find_payout(&self.payouts, group_id, group.current_cycle).is_some() {
            return Err(AjoError::AlreadyReceivedPayout);
        }
        Ok(position)
    }

    /// Returns `true` if what the payout of group `group_id` at `now` moves
    /// can be written as an `i128`, as `payout_due_at` asks.
    pub fn payout_due_fits_at(&self, group_id: u64, now: u64) -> (fits: bool)
        requires
            self.wf(),
        ensures
            fits == self@.payout_due_fits(group_id, now),
    {
        let position = match self.payout_position_at(group_id, now) {
            Ok(position) => position,
            Err(_) => {
                return true;
            },
        };
        let group = &self.groups[position];
        let member_count = slot_count(&group.members) as i128;
        proof {
            assert(group@.wf());
            lemma_pool_of(self@.penalty_pools, group_id, group.current_cycle);
            let amount = group.contribution_amount as int;
            let n = member_count as int;
            let most = i128::MAX as int;
            assert(amount * n <= most <==> amount <= most / n) by (nonlinear_arith)
                requires
                    amount > 0,
                    n > 0,
            ;
            assert(amount * n >= 0) by (nonlinear_arith)
                requires
                    amount > 0,
                    n > 0,
            ;
        }
        if group.contribution_amount > i128::MAX / member_count {
            return false;
        }
        let contributions = group.contribution_amount * member_count;
        let penalties = penalty_pool(&self.penalty_pools, group_id, group.current_cycle);
        penalties <= i128::MAX - contributions
    }

    /// Returns `true` if what the payout of group `group_id` at `now` forms
    /// can be written in its machine types, the amount as an `i128` and the
    /// next cycle as a `u32`, as `execute_payout_at` asks.
    pub fn payout_fits_at(&self, group_id: u64, now: u64) -> (fits: bool)
        requires
            self.wf(),
        ensures
            fits == self@.payout_fits(group_id, now),
    {
        if !self.payout_due_fits_at(group_id, now) {
            return false;
        }
        match self.payout_position_at(group_id, now) {
            Ok(position) => self.groups[position].current_cycle < u32::MAX,
            Err(_) => true,
        }
    }

    /// Who is to be paid in the payout of group `group_id` at `now`, and how
    /// much, if the payout can be made. Nothing is changed.
    pub fn payout_due_at(&self, group_id: u64, now: u64) -> (due: Result<PayoutDue, AjoError>)
        requires
            self.wf(),
            self@.payout_due_fits(group_id, now),
        ensures
            due == self@.payout_due(group_id, now),
    {
        let position = match self.payout_position_at(group_id, now) {
            Ok(position) => position,
            Err(e) => {
                return Err(e);
            },
        };
        let group = &self.groups[position];
        proof {
            assert(group@.wf());
        }
        let contributions = calculate_payout_amount(group);
        let penalties = penalty_pool(&self.penalty_pools, group_id, group.current_cycle);
        let recipient = slot_at(&group.members, group.payout_index).unwrap();
        Ok(PayoutDue { recipient, amount: contributions + penalties })
    }

    /// Makes the payout of the running cycle of group `group_id` at `now`.
    /// `transfer` is what the transfer primitive answered when asked to
    /// move what `payout_due_at` gave to the recipient.
    pub fn execute_payout_at(&mut self, group_id: u64, now: u64, transfer: TransferOutcome) -> (paid: Result<
        (),
        AjoError,
    >)
        requires
            old(self).wf(),
            old(self)@.payout_fits(group_id, now),
        ensures
            final(self).wf(),
            old(self)@.pays_out(final(self)@, paid, group_id, now, transfer),
    {
        let due = match self.payout_due_at(group_id, now) {
            Ok(due) => due,
            Err(e) => {
                return Err(e);
            },
        };
        match transfer {
            TransferOutcome::Completed => {},
            _ => {
                return Err(AjoError::TransferFailed);
            },
        }
        let position = self.group_position(group_id).unwrap();
        let group = &self.groups[position];
        proof {
            assert(self@.groups[position as int] == group@);
            assert(group@.wf());
            lemma_payout_keeps_form(group@, now);
            theorem_execute_payout_keeps_wf(self@, group_id, now, transfer);
        }
        let member_count = slot_count(&group.members);
        let cycle = group.current_cycle;
        let next_cycle = cycle + 1;
        let advanced = Group {
            id: group.id,
            creator: group.creator.clone(),
            contribution_amount: group.contribution_amount,
            cycle_duration: group.cycle_duration,
            max_members: group.max_members,
            members: group.members.clone(),
            current_cycle: next_cycle,
            payout_index: (group.payout_index + 1) % member_count,
            created_at: group.created_at,
            cycle_start_time: now,
            is_complete: group.is_complete || next_cycle > member_count,
            grace_period: group.grace_period,
            penalty_rate: group.penalty_rate,
        };
        proof {
            assert(advanced@ == group_after_payout(group@, now));
            lemma_group_replaced(self.groups@, position as int, advanced);
        }
        self.payouts.push(
            PayoutRecord { member: due.recipient, group_id, cycle, amount: due.amount, timestamp: now },
        );
        self.groups.set(position, advanced);
        Ok(())
    }

    /// Creates a group as `create_group_at` does, at the time of the
    /// ledger.
    pub fn create_group(
        &mut self,
        env: &Env,
        creator: &Address,
        amount: i128,
        duration: u64,
        max_members: u32,
        grace_period: u64,
        penalty_rate: u32,
    ) -> (created: Result<u64, AjoError>)
        requires
            old(self).wf(),
        ensures
            final(self).wf(),
            exists|now: u64|
                old(self)@.creates_group(
                    final(self)@,
                    created,
                    *creator,
                    amount,
                    duration,
                    max_members,
                    grace_period,
                    penalty_rate,
                    now,
                ),
    {
        let now = get_current_timestamp(env);
        self.create_group_at(env, creator, amount, duration, max_members, grace_period, penalty_rate, now)
    }

    /// What `member` has to pay for a contribution to group `group_id` at
    /// the time of the ledger; `None` where that cannot be written as an
    /// `i128`.
    pub fn contribution_due(&self, env: &Env, member: &Address, group_id: u64) -> (due: Option<
        Result<ContributionDue, AjoError>,
    >)
        requires
            self.wf(),
        ensures
            exists|now: u64| #[trigger] self@.finds_contribution_due(due, *member, group_id, now),
    {
        let now = get_current_timestamp(env);
        if !self.due_fits_at(member, group_id, now) {
            assert(self@.finds_contribution_due(None, *member, group_id, now));
            return None;
        }
        let due = Some(self.contribution_due_at(member, group_id, now));
        assert(self@.finds_contribution_due(due, *member, group_id, now));
        due
    }

    /// Takes the contribution of `member` to group `group_id` as
    /// `contribute_at` does, at the time of the ledger; `None`, and nothing
    /// changed, where its sums cannot be written as `i128`.
    pub fn contribute(&mut self, env: &Env, member: &Address, group_id: u64, transfer: TransferOutcome) -> (contributed:
        Option<Result<(), AjoError>>)
        requires
            old(self).wf(),
        ensures
            final(self).wf(),
            exists|now: u64| #[trigger]
                old(self)@.contributes_where_fits(
                    final(self)@,
                    contributed,
                    *member,
                    group_id,
                    now,
                    transfer,
                ),
    {
        let now = get_current_timestamp(env);
        if !self.contribution_fits_at(member, group_id, now) {
            assert(old(self)@.contributes_where_fits(self@, None, *member, group_id, now, transfer));
            return None;
        }
        let contributed = Some(self.contribute_at(member, group_id, now, transfer));
        assert(old(self)@.contributes_where_fits(self@, contributed, *member, group_id, now, transfer));
        contributed
    }

    /// Who is to be paid in the payout of group `group_id` at the time of
    /// the ledger, and how much; `None` where that cannot be written as an
    /// `i128`.
    pub fn payout_due(&self, env: &Env, group_id: u64) -> (due: Option<Result<PayoutDue, AjoError>>)
        requires
            self.wf(),
        ensures
            exists|now: u64| #[trigger] self@.finds_payout_due(due, group_id, now),
    {
        let now = get_current_timestamp(env);
        if !self.payout_due_fits_at(group_id, now) {
            assert(self@.finds_payout_due(None, group_id, now));
            return None;
        }
        let due = Some(self.payout_due_at(group_id, now));
        assert(self@.finds_payout_due(due, group_id, now));
        due
    }

    /// Makes the payout of group `group_id` as `execute_payout_at` does, at
    /// the time of the ledger; `None`, and nothing changed, where the amount
    /// cannot be written as an `i128` or the next cycle as a `u32`.
    pub fn execute_payout(&mut self, env: &Env, group_id: u64, transfer: TransferOutcome) -> (paid: Option<
        Result<(), AjoError>,
    >)
        requires
            old(self).wf(),
        ensures
            final(self).wf(),
            exists|now: u64| #[trigger] old(self)@.pays_out_where_fits(final(self)@, paid, group_id, now, transfer),
    {
        let now = get_current_timestamp(env);
        if !self.payout_fits_at(group_id, now) {
            assert(old(self)@.pays_out_where_fits(self@, None, group_id, now, transfer));
            return None;
        }
        let paid = Some(self.execute_payout_at(group_id, now, transfer));
        assert(old(self)@.pays_out_where_fits(self@, paid, group_id, now, transfer));
        paid
    }

    /// Pauses the contract; see [`crate::pausable::pause`]. Groups,
    /// contributions and payouts are left as they are.
    pub fn pause(&mut self, caller: &Address) -> (verdict: Result<(), AjoError>)
        requires
            old(self).wf(),
        ensures
            final(self).wf(),
            verdict == old(self)@.pause_verdict(*caller),
            final(self)@ == if verdict is Ok {
                old(self)@.with_paused(true)
            } else {
                old(self)@
            },
    {
        let verdict = pause(&mut self.config, caller);
        proof {
            theorem_pause_keeps_wf(old(self)@, self.config.paused);
            assert(self@ == old(self)@.with_paused(self.config.paused));
        }
        verdict
    }

    /// Lifts the pause; see [`crate::pausable::unpause`]. Groups,
    /// contributions and payouts are left as they are.
    pub fn unpause(&mut self, caller: &Address) -> (verdict: Result<(), AjoError>)
        requires
            old(self).wf(),
        ensures
            final(self).wf(),
            verdict == old(self)@.unpause_verdict(*caller),
            final(self)@ == if verdict is Ok {
                old(self)@.with_paused(false)
            } else {
                old(self)@
            },
    {
        let verdict = unpause(&mut self.config, caller);
        proof {
            theorem_pause_keeps_wf(old(self)@, self.config.paused);
            assert(self@ == old(self)@.with_paused(self.config.paused));
        }
        verdict
    }

    /// The configuration.
    pub fn config(&self) -> (config: &Config)
        ensures
            *config == self@.config,
    {
        &self.config
    }

    /// The number of groups, which is the id of the latest.
    pub fn group_count(&self) -> (count: usize)
        ensures
            count == self@.groups.len(),
    {
        self.groups.len()
    }

    /// The group with the given id.
    pub fn get_group(&self, group_id: u64) -> (found: Result<&Group, AjoError>)
        requires
            self.wf(),
        ensures
            match found {
                Ok(group) => self@.group(group_id) == Some(group@) && group.wf() && group.id == group_id,
                Err(e) => e == AjoError::GroupNotFound && self@.group(group_id) is None,
            },
    {
        match self.group_position(group_id) {
            Some(position) => {
                proof {
                    assert(self@.groups[position as int] == self.groups@[position as int]@);
                }
                Ok(&self.groups[position])
            },
            None => Err(AjoError::GroupNotFound),
        }
    }

    /// The penalty record of `member` in group `group_id`: the record of a
    /// member who has not contributed yet where none is kept.
    pub fn get_member_penalty_record(&self, group_id: u64, member: &Address) -> (record: MemberPenaltyRecord)
        ensures
            record == penalty_record_of(self@.penalty_records, group_id, *member),
    {
        match find_penalty_record(&self.penalty_records, group_id, member) {
            Some(i) => {
                let kept = &self.penalty_records[i];
                MemberPenaltyRecord {
                    member: kept.member.clone(),
                    group_id: kept.group_id,
                    late_count: kept.late_count,
                    on_time_count: kept.on_time_count,
                    total_penalties: kept.total_penalties,
                    reliability_score: kept.reliability_score,
                }
            },
            None => MemberPenaltyRecord {
                member: member.clone(),
                group_id,
                late_count: 0,
                on_time_count: 0,
                total_penalties: 0,
                reliability_score: INITIAL_RELIABILITY_SCORE,
            },
        }
    }

    /// The penalties collected in `cycle` of group `group_id`; 0 where
    /// none were.
    pub fn get_cycle_penalty_pool(&self, group_id: u64, cycle: u32) -> (amount: i128)
        ensures
            amount == pool_of(self@.penalty_pools, group_id, cycle),
    {
        penalty_pool(&self.penalty_pools, group_id, cycle)
    }

    /// The contribution of `member` in `cycle` of group `group_id`, if one
    /// was made.
    pub fn get_contribution_detail(&self, group_id: u64, cycle: u32, member: &Address) -> (detail: Option<
        ContributionRecord,
    >)
        ensures
            detail == contribution_of(self@.contributions, group_id, cycle, *member),
    {
        match find_contribution(&self.contributions, group_id, cycle, member) {
            Some(i) => {
                let kept = &self.contributions[i];
                Some(
                    ContributionRecord {
                        member: kept.member.clone(),
                        group_id: kept.group_id,
                        cycle: kept.cycle,
                        has_paid: kept.has_paid,
                        timestamp: kept.timestamp,
                        is_late: kept.is_late,
                        penalty_amount: kept.penalty_amount,
                    },
                )
            },
            None => None,
        }
    }

    /// The payout of `cycle` of group `group_id`, if it was made.
    pub fn get_payout_record(&self, group_id: u64, cycle: u32) -> (record: Option<PayoutRecord>)
        ensures
            record == payout_of(self@.payouts, group_id, cycle),
    {
        match find_payout(&self.payouts, group_id, cycle) {
            Some(i) => {
                let kept = &self.payouts[i];
                Some(
                    PayoutRecord {
                        member: kept.member.clone(),
                        group_id: kept.group_id,
                        cycle: kept.cycle,
                        amount: kept.amount,
                        timestamp: kept.timestamp,
                    },
                )
            },
            None => None,
        }
    }

    /// Where group `group_id` stands at `now`.
    pub fn get_group_status_at(&self, group_id: u64, now: u64) -> (status: Result<GroupStatus, AjoError>)
        ensures
            status == self@.group_status(group_id, now),
    {
        let position = match self.group_position(group_id) {
            Some(position) => position,
            None => {
                return Err(AjoError::GroupNotFound);
            },
        };
        let group = &self.groups[position];
        Ok(
            GroupStatus {
                is_cycle_active: is_within_cycle_window(group, now),
                is_in_grace_period: is_within_grace_period(group, now),
                cycle_penalty_pool: penalty_pool(&self.penalty_pools, group_id, group.current_cycle),
            },
        )
    }

    /// Where group `group_id` stands at the time of the ledger.
    pub fn get_group_status(&self, env: &Env, group_id: u64) -> (status: Result<GroupStatus, AjoError>)
        ensures
            exists|now: u64| status == #[trigger] self@.group_status(group_id, now),
    {
        let now = get_current_timestamp(env);
        self.get_group_status_at(group_id, now)
    }
}

} // verus!
