//! The contract as a state machine over mathematical values: what each
//! operation answers in a state, and the state that it leaves.

use crate::errors::AjoError;
use crate::pausable::Config;
use crate::tables::{
    contribution_key, has_contributed, has_payout, payout_key, penalty_key, penalty_record_of,
    pool_credited, pool_key, pool_of,
};
use crate::types::{
    ContributionDue, ContributionRecord, CyclePenaltyPool, GroupStatus, GroupView, MemberPenaltyRecord,
    PayoutDue, PayoutRecord, TransferOutcome,
};
use crate::utils::{
    group_params_verdict, penalty_of, penalty_params_verdict, penalty_recorded, reliability_of,
};
use soroban_sdk::Address;
use vstd::prelude::*;

verus! {

/// Everything that the contract keeps.
pub struct AjoState {
    pub config: Config,
    /// The groups in the order of their creation.
    pub groups: Seq<GroupView>,
    pub contributions: Seq<ContributionRecord>,
    pub penalty_records: Seq<MemberPenaltyRecord>,
    pub penalty_pools: Seq<CyclePenaltyPool>,
    pub payouts: Seq<PayoutRecord>,
}

/// The group that `create_group` makes: the creator is its only member, the
/// first cycle starts at `now`, and the creator is first to be paid.
pub open spec fn new_group(
    id: u64,
    creator: Address,
    amount: i128,
    duration: u64,
    max_members: u32,
    grace_period: u64,
    penalty_rate: u32,
    now: u64,
) -> GroupView {
    GroupView {
        id,
        creator,
        contribution_amount: amount,
        cycle_duration: duration,
        max_members,
        members: seq![creator],
        current_cycle: 1,
        payout_index: 0,
        created_at: now,
        cycle_start_time: now,
        is_complete: false,
        grace_period,
        penalty_rate,
    }
}

/// The penalty on a contribution to `g` at `now`: that of a late
/// contribution in the grace period, none in the cycle.
pub open spec fn penalty_at(g: GroupView, now: u64) -> int {
    if g.in_grace_period(now) {
        penalty_of(g.contribution_amount as int, g.penalty_rate as int)
    } else {
        0
    }
}

/// What a payout of `g` moves: the contributions of all its members and
/// the penalties collected in its running cycle.
pub open spec fn payout_total(g: GroupView, pools: Seq<CyclePenaltyPool>) -> int {
    g.contribution_amount * g.members.len() + pool_of(pools, g.id, g.current_cycle)
}

/// The group after a payout at `now`: the turn passes to the next member,
/// the next cycle starts at `now`, and the group is complete once as many
/// payouts were made as it has members.
pub open spec fn group_after_payout(g: GroupView, now: u64) -> GroupView {
    GroupView {
        payout_index: ((g.payout_index + 1) % (g.members.len() as int)) as u32,
        current_cycle: (g.current_cycle + 1) as u32,
        cycle_start_time: now,
        is_complete: g.is_complete || g.current_cycle + 1 > g.members.len(),
        ..g
    }
}

/// The member whose turn `cycle` is in `g`: the members are paid in the
/// order in which they joined, and again from the first after the last.
pub open spec fn turn_of(g: GroupView, cycle: u32) -> Address {
    g.members[(cycle - 1) % (g.members.len() as int)]
}

/// The score of a record is the share of its contributions made on time.
pub open spec fn penalty_record_wf(r: MemberPenaltyRecord) -> bool {
    r.reliability_score == reliability_of(r.on_time_count as int, r.late_count as int)
}

impl AjoState {
    /// The state of a contract that `admin` has just set up: no groups, no
    /// records, not paused.
    pub open spec fn initial(admin: Address) -> AjoState {
        AjoState {
            config: Config { admin: Some(admin), paused: false },
            groups: Seq::empty(),
            contributions: Seq::empty(),
            penalty_records: Seq::empty(),
            penalty_pools: Seq::empty(),
            payouts: Seq::empty(),
        }
    }

    /// The group with the given id.
    pub open spec fn group(self, id: u64) -> Option<GroupView> {
        if 1 <= id <= self.groups.len() {
            Some(self.groups[id - 1])
        } else {
            None
        }
    }

    /// Every group is well formed and carries its position, counted from 1,
    /// as its id.
    pub open spec fn groups_wf(self) -> bool {
        forall|i: int|
            0 <= i < self.groups.len() ==> (#[trigger] self.groups[i]).wf() && self.groups[i].id == i
                + 1
    }

    /// A contribution is one of a member of a group that exists, in a cycle
    /// that the group has reached.
    pub open spec fn contribution_in_range(self, r: ContributionRecord) -> bool {
        &&& self.group(r.group_id) is Some
        &&& 1 <= r.cycle <= self.group(r.group_id)->0.current_cycle
        &&& self.group(r.group_id)->0.has_member(r.member)
    }

    /// A payout is one of a group that exists, for a cycle that the group
    /// has left behind, to the member whose turn the cycle was.
    pub open spec fn payout_in_range(self, r: PayoutRecord) -> bool {
        &&& self.group(r.group_id) is Some
        &&& 1 <= r.cycle < self.group(r.group_id)->0.current_cycle
        &&& r.member == turn_of(self.group(r.group_id)->0, r.cycle)
    }

    /// Every cycle that a group has left behind has been paid.
    pub open spec fn payouts_complete(self) -> bool {
        forall|group_id: u64, cycle: u32|
            self.group(group_id) is Some && 1 <= cycle < self.group(group_id)->0.current_cycle
                ==> #[trigger] has_payout(self.payouts, group_id, cycle)
    }

    /// No cycle of a group has two payouts.
    pub open spec fn payouts_unique(self) -> bool {
        forall|i: int, j: int|
            #![trigger self.payouts[i], self.payouts[j]]
            0 <= i < j < self.payouts.len() ==> !payout_key(
                self.payouts[i],
                self.payouts[j].group_id,
                self.payouts[j].cycle,
            )
    }

    /// No member has two contributions in a cycle of a group.
    pub open spec fn contributions_unique(self) -> bool {
        forall|i: int, j: int|
            #![trigger self.contributions[i], self.contributions[j]]
            0 <= i < j < self.contributions.len() ==> !contribution_key(
                self.contributions[i],
                self.contributions[j].group_id,
                self.contributions[j].cycle,
                self.contributions[j].member,
            )
    }

    /// A penalty record carries the score of its counts and no negative
    /// sum, belongs to a group that exists, and counts at most one
    /// contribution for every cycle that the group has reached: one less
    /// than the running cycle while the member has not contributed in it.
    pub open spec fn penalty_record_in_range(self, r: MemberPenaltyRecord) -> bool {
        &&& penalty_record_wf(r)
        &&& r.total_penalties >= 0
        &&& self.group(r.group_id) is Some
        &&& r.late_count + r.on_time_count + (if has_contributed(
            self.contributions,
            r.group_id,
            self.group(r.group_id)->0.current_cycle,
            r.member,
        ) {
            0int
        } else {
            1int
        }) <= self.group(r.group_id)->0.current_cycle
    }

    /// No member has two penalty records in a group.
    pub open spec fn penalty_records_unique(self) -> bool {
        forall|i: int, j: int|
            #![trigger self.penalty_records[i], self.penalty_records[j]]
            0 <= i < j < self.penalty_records.len() ==> !penalty_key(
                self.penalty_records[i],
                self.penalty_records[j].group_id,
                self.penalty_records[j].member,
            )
    }

    /// A pool is not negative and is that of a cycle that a group that
    /// exists has reached.
    pub open spec fn pool_in_range(self, p: CyclePenaltyPool) -> bool {
        &&& p.amount >= 0
        &&& self.group(p.group_id) is Some
        &&& 1 <= p.cycle <= self.group(p.group_id)->0.current_cycle
    }

    /// No cycle of a group has two pools.
    pub open spec fn pools_unique(self) -> bool {
        forall|i: int, j: int|
            #![trigger self.penalty_pools[i], self.penalty_pools[j]]
            0 <= i < j < self.penalty_pools.len() ==> !pool_key(
                self.penalty_pools[i],
                self.penalty_pools[j].group_id,
                self.penalty_pools[j].cycle,
            )
    }

    /// The groups are well formed and numbered in order, and the records
    /// fit them: a member has contributed at most once in a cycle, and never
    /// ahead of the group's cycle; every cycle that a group has left behind
    /// has been paid once, to the member whose turn it was, and no other
    /// cycle has; a member has one penalty record in a group at most, with
    /// no more contributions counted than cycles were open; a cycle has one
    /// pool at most; and no pool or sum of penalties is negative.
    pub open spec fn wf(self) -> bool {
        &&& self.groups_wf()
        &&& forall|i: int|
            0 <= i < self.contributions.len() ==> self.contribution_in_range(#[trigger] self.contributions[i])
        &&& self.contributions_unique()
        &&& forall|i: int| 0 <= i < self.payouts.len() ==> self.payout_in_range(#[trigger] self.payouts[i])
        &&& self.payouts_complete()
        &&& self.payouts_unique()
        &&& forall|i: int|
            0 <= i < self.penalty_records.len() ==> self.penalty_record_in_range(
                #[trigger] self.penalty_records[i],
            )
        &&& self.penalty_records_unique()
        &&& forall|i: int| 0 <= i < self.penalty_pools.len() ==> self.pool_in_range(#[trigger] self.penalty_pools[i])
        &&& self.pools_unique()
    }

    /// The state with group `id` replaced.
    pub open spec fn with_group(self, id: u64, g: GroupView) -> AjoState {
        AjoState { groups: self.groups.update(id - 1, g), ..self }
    }

    // Creating a group

    /// What `create_group` answers: refused while paused and for invalid
    /// terms; else the next id, one more than the number of groups.
    pub open spec fn create_group_verdict(
        self,
        amount: i128,
        duration: u64,
        max_members: u32,
        grace_period: u64,
        penalty_rate: u32,
    ) -> Result<u64, AjoError> {
        if self.config.paused {
            Err(AjoError::ContractPaused)
        } else if group_params_verdict(amount, duration, max_members) is Err {
            Err(group_params_verdict(amount, duration, max_members)->Err_0)
        } else if penalty_params_verdict(grace_period, penalty_rate) is Err {
            Err(penalty_params_verdict(grace_period, penalty_rate)->Err_0)
        } else {
            Ok((self.groups.len() + 1) as u64)
        }
    }

    /// The state after a group was created.
    pub open spec fn with_group_created(
        self,
        creator: Address,
        amount: i128,
        duration: u64,
        max_members: u32,
        grace_period: u64,
        penalty_rate: u32,
        now: u64,
    ) -> AjoState {
        let id = (self.groups.len() + 1) as u64;
        AjoState {
            groups: self.groups.push(
                new_group(id, creator, amount, duration, max_members, grace_period, penalty_rate, now),
            ),
            ..self
        }
    }

    // Joining a group

    /// What `join_group` answers. The checks are made in this order: the
    /// pause, the caller, the group, its completion, the membership, the
    /// room.
    pub open spec fn join_group_verdict(self, caller: Address, member: Address, group_id: u64) -> Result<
        (),
        AjoError,
    > {
        if self.config.paused {
            Err(AjoError::ContractPaused)
        } else if caller != member {
            Err(AjoError::Unauthorized)
        } else if self.group(group_id) is None {
            Err(AjoError::GroupNotFound)
        } else {
            let g = self.group(group_id)->0;
            if g.is_complete {
                Err(AjoError::GroupComplete)
            } else if g.has_member(member) {
                Err(AjoError::AlreadyMember)
            } else if g.members.len() >= g.max_members {
                Err(AjoError::GroupFull)
            } else {
                Ok(())
            }
        }
    }

    /// The state after `member` joined group `group_id`: the member stands
    /// behind the others.
    pub open spec fn with_member_joined(self, member: Address, group_id: u64) -> AjoState {
        let g = self.groups[group_id - 1];
        self.with_group(group_id, GroupView { members: g.members.push(member), ..g })
    }

    // Contributing

    /// What is found of a contribution of `member` to group `group_id` at
    /// `now`, before anything is moved. The checks are made in this order:
    /// the pause, the group, the membership, an earlier contribution in the
    /// running cycle, the time. A time outside the cycle and its grace
    /// period is refused with `GracePeriodExpired`.
    pub open spec fn contribution_due(self, member: Address, group_id: u64, now: u64) -> Result<
        ContributionDue,
        AjoError,
    > {
        if self.config.paused {
            Err(AjoError::ContractPaused)
        } else if self.group(group_id) is None {
            Err(AjoError::GroupNotFound)
        } else {
            let g = self.group(group_id)->0;
            if !g.has_member(member) {
                Err(AjoError::NotMember)
            } else if has_contributed(self.contributions, group_id, g.current_cycle, member) {
                Err(AjoError::AlreadyContributed)
            } else if g.in_cycle_window(now) || g.in_grace_period(now) {
                Ok(
                    ContributionDue {
                        amount: (g.contribution_amount + penalty_at(g, now)) as i128,
                        is_late: g.in_grace_period(now),
                        penalty_amount: penalty_at(g, now) as i128,
                    },
                )
            } else {
                Err(AjoError::GracePeriodExpired)
            }
        }
    }

    /// What a contribution moves, the amount and the penalty together, can
    /// be written as an `i128`.
    pub open spec fn due_fits(self, member: Address, group_id: u64, now: u64) -> bool {
        self.contribution_due(member, group_id, now) is Ok ==> {
            let g = self.group(group_id)->0;
            g.contribution_amount + penalty_at(g, now) <= i128::MAX
        }
    }

    /// The sums that a contribution forms can be written as `i128`: what is
    /// moved, the member's penalties and the pool of the cycle.
    pub open spec fn contribution_fits(self, member: Address, group_id: u64, now: u64) -> bool {
        &&& self.due_fits(member, group_id, now)
        &&& self.contribution_due(member, group_id, now) is Ok ==> {
            let g = self.group(group_id)->0;
            let penalty = penalty_at(g, now);
            &&& penalty_record_of(self.penalty_records, group_id, member).total_penalties + penalty
                <= i128::MAX
            &&& pool_of(self.penalty_pools, group_id, g.current_cycle) + penalty <= i128::MAX
        }
    }

    /// What `contribute` answers once the transfer primitive has answered:
    /// what `contribution_due` refuses is refused before anything is
    /// moved; else the failure of the transfer, or success.
    pub open spec fn contribute_verdict(
        self,
        member: Address,
        group_id: u64,
        now: u64,
        transfer: TransferOutcome,
    ) -> Result<(), AjoError> {
        match self.contribution_due(member, group_id, now) {
            Err(e) => Err(e),
            Ok(_) => match transfer {
                TransferOutcome::Completed => Ok(()),
                TransferOutcome::InsufficientBalance => Err(AjoError::InsufficientBalance),
                TransferOutcome::Failed => Err(AjoError::TransferFailed),
            },
        }
    }

    /// The state after `member` contributed to group `group_id` at `now`:
    /// the contribution is recorded for the running cycle, counted in the
    /// member's penalty record, and its penalty added to the pool of the
    /// cycle.
    pub open spec fn with_contribution(self, member: Address, group_id: u64, now: u64) -> AjoState {
        let g = self.groups[group_id - 1];
        let is_late = g.in_grace_period(now);
        let penalty = penalty_at(g, now) as i128;
        AjoState {
            contributions: self.contributions.push(
                ContributionRecord {
                    member,
                    group_id,
                    cycle: g.current_cycle,
                    has_paid: true,
                    timestamp: now,
                    is_late,
                    penalty_amount: penalty,
                },
            ),
            penalty_records: penalty_recorded(self.penalty_records, group_id, member, is_late, penalty),
            penalty_pools: pool_credited(self.penalty_pools, group_id, g.current_cycle, penalty),
            ..self
        }
    }

    // Paying out

    /// What is found of a payout of group `group_id` at `now`, before
    /// anything is moved. The checks are made in this order: the pause, the
    /// group, its members, the end of the grace period, an earlier payout of
    /// the running cycle. The payout does not wait for contributions: once
    /// the grace period is over, every member has had the whole window to
    /// contribute, on time or late.
    pub open spec fn payout_due(self, group_id: u64, now: u64) -> Result<PayoutDue, AjoError> {
        if self.config.paused {
            Err(AjoError::ContractPaused)
        } else if self.group(group_id) is None {
            Err(AjoError::GroupNotFound)
        } else {
            let g = self.group(group_id)->0;
            if g.members.len() == 0 {
                Err(AjoError::NoMembers)
            } else if now < g.grace_end() {
                Err(AjoError::OutsideCycleWindow)
            } else if has_payout(self.payouts, group_id, g.current_cycle) {
                Err(AjoError::AlreadyReceivedPayout)
            } else {
                Ok(
                    PayoutDue {
                        recipient: g.members[g.payout_index as int],
                        amount: payout_total(g, self.penalty_pools) as i128,
                    },
                )
            }
        }
    }

    /// What a payout moves can be written as an `i128`.
    pub open spec fn payout_due_fits(self, group_id: u64, now: u64) -> bool {
        self.payout_due(group_id, now) is Ok ==> {
            let g = self.group(group_id)->0;
            &&& g.contribution_amount * g.members.len() <= i128::MAX
            &&& i128::MIN <= payout_total(g, self.penalty_pools) <= i128::MAX
        }
    }

    /// What a payout forms can be written in its machine types: what is
    /// moved in `i128`, the next cycle in `u32`.
    pub open spec fn payout_fits(self, group_id: u64, now: u64) -> bool {
        &&& self.payout_due_fits(group_id, now)
        &&& self.payout_due(group_id, now) is Ok ==> self.group(group_id)->0.current_cycle < u32::MAX
    }

    /// What `execute_payout` answers once the transfer primitive has
    /// answered: what `payout_due` refuses is refused before anything is
    /// moved; a transfer that did not complete is `TransferFailed`.
    pub open spec fn execute_payout_verdict(self, group_id: u64, now: u64, transfer: TransferOutcome) -> Result<
        (),
        AjoError,
    > {
        match self.payout_due(group_id, now) {
            Err(e) => Err(e),
            Ok(_) => match transfer {
                TransferOutcome::Completed => Ok(()),
                _ => Err(AjoError::TransferFailed),
            },
        }
    }

    /// The state after the payout of group `group_id` at `now`: the payout
    /// is recorded for the cycle that it closes, and the group moves on.
    pub open spec fn with_payout(self, group_id: u64, now: u64) -> AjoState {
        let g = self.groups[group_id - 1];
        AjoState {
            payouts: self.payouts.push(
                PayoutRecord {
                    member: g.members[g.payout_index as int],
                    group_id,
                    cycle: g.current_cycle,
                    amount: payout_total(g, self.penalty_pools) as i128,
                    timestamp: now,
                },
            ),
            ..self.with_group(group_id, group_after_payout(g, now))
        }
    }

    // The steps

    /// `create_group` at `now` answers `created` and leaves `post`.
    pub open spec fn creates_group(
        self,
        post: AjoState,
        created: Result<u64, AjoError>,
        creator: Address,
        amount: i128,
        duration: u64,
        max_members: u32,
        grace_period: u64,
        penalty_rate: u32,
        now: u64,
    ) -> bool {
        &&& created == self.create_group_verdict(amount, duration, max_members, grace_period, penalty_rate)
        &&& post == if created is Ok {
            self.with_group_created(creator, amount, duration, max_members, grace_period, penalty_rate, now)
        } else {
            self
        }
    }

    /// `contribute` at `now` answers `contributed` and leaves `post`.
    pub open spec fn contributes(
        self,
        post: AjoState,
        contributed: Result<(), AjoError>,
        member: Address,
        group_id: u64,
        now: u64,
        transfer: TransferOutcome,
    ) -> bool {
        &&& contributed == self.contribute_verdict(member, group_id, now, transfer)
        &&& post == if contributed is Ok {
            self.with_contribution(member, group_id, now)
        } else {
            self
        }
    }

    /// `execute_payout` at `now` answers `paid` and leaves `post`.
    pub open spec fn pays_out(
        self,
        post: AjoState,
        paid: Result<(), AjoError>,
        group_id: u64,
        now: u64,
        transfer: TransferOutcome,
    ) -> bool {
        &&& paid == self.execute_payout_verdict(group_id, now, transfer)
        &&& post == if paid is Ok {
            self.with_payout(group_id, now)
        } else {
            self
        }
    }

    /// `contribution_due`, reading the clock at `now`, answers `due`:
    /// nothing where what is moved does not fit.
    pub open spec fn finds_contribution_due(
        self,
        due: Option<Result<ContributionDue, AjoError>>,
        member: Address,
        group_id: u64,
        now: u64,
    ) -> bool {
        match due {
            Some(found) => self.due_fits(member, group_id, now) && found == self.contribution_due(
                member,
                group_id,
                now,
            ),
            None => !self.due_fits(member, group_id, now),
        }
    }

    /// `contribute`, reading the clock at `now`, answers `contributed` and
    /// leaves `post`: nothing, and the state as it was, where the sums do
    /// not fit.
    pub open spec fn contributes_where_fits(
        self,
        post: AjoState,
        contributed: Option<Result<(), AjoError>>,
        member: Address,
        group_id: u64,
        now: u64,
        transfer: TransferOutcome,
    ) -> bool {
        match contributed {
            Some(answer) => self.contribution_fits(member, group_id, now) && self.contributes(
                post,
                answer,
                member,
                group_id,
                now,
                transfer,
            ),
            None => !self.contribution_fits(member, group_id, now) && post == self,
        }
    }

    /// `payout_due`, reading the clock at `now`, answers `due`: nothing
    /// where what is moved does not fit.
    pub open spec fn finds_payout_due(self, due: Option<Result<PayoutDue, AjoError>>, group_id: u64, now: u64) -> bool {
        match due {
            Some(found) => self.payout_due_fits(group_id, now) && found == self.payout_due(group_id, now),
            None => !self.payout_due_fits(group_id, now),
        }
    }

    /// `execute_payout`, reading the clock at `now`, answers `paid` and
    /// leaves `post`: nothing, and the state as it was, where the amount or
    /// the next cycle does not fit.
    pub open spec fn pays_out_where_fits(
        self,
        post: AjoState,
        paid: Option<Result<(), AjoError>>,
        group_id: u64,
        now: u64,
        transfer: TransferOutcome,
    ) -> bool {
        match paid {
            Some(answer) => self.payout_fits(group_id, now) && self.pays_out(
                post,
                answer,
                group_id,
                now,
                transfer,
            ),
            None => !self.payout_fits(group_id, now) && post == self,
        }
    }

    // Pausing

    /// What `pause` answers.
    pub open spec fn pause_verdict(self, caller: Address) -> Result<(), AjoError> {
        if self.config.is_admin(caller) {
            Ok(())
        } else {
            Err(AjoError::UnauthorizedPause)
        }
    }

    /// What `unpause` answers.
    pub open spec fn unpause_verdict(self, caller: Address) -> Result<(), AjoError> {
        if self.config.is_admin(caller) {
            Ok(())
        } else {
            Err(AjoError::UnauthorizedUnpause)
        }
    }

    /// The state with the pause switch set to `paused`; nothing else
    /// differs.
    pub open spec fn with_paused(self, paused: bool) -> AjoState {
        AjoState { config: Config { paused, ..self.config }, ..self }
    }

    // Reading

    /// Where group `group_id` stands at `now`.
    pub open spec fn group_status(self, group_id: u64, now: u64) -> Result<GroupStatus, AjoError> {
        match self.group(group_id) {
            None => Err(AjoError::GroupNotFound),
            Some(g) => Ok(
                GroupStatus {
                    is_cycle_active: g.in_cycle_window(now),
                    is_in_grace_period: g.in_grace_period(now),
                    cycle_penalty_pool: pool_of(self.penalty_pools, group_id, g.current_cycle),
                },
            ),
        }
    }
}

} // verus!
