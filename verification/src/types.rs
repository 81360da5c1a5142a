//! The records of the contract and their mathematical content.

use crate::host::slots;
use soroban_sdk::Address;
use vstd::prelude::*;

verus! {

/// Fewest members a group may be created for.
pub const MIN_MEMBERS: u32 = 2;

/// Most members a group may be created for.
pub const MAX_MEMBERS_LIMIT: u32 = 100;

/// Longest grace period, in seconds: seven days.
pub const MAX_GRACE_PERIOD: u64 = 604_800;

/// Largest penalty rate, in percent.
pub const MAX_PENALTY_RATE: u32 = 100;

/// The reliability score of a member who has not contributed yet.
pub const INITIAL_RELIABILITY_SCORE: u32 = 100;

/// A savings group: its terms, its members and where its rotation stands.
#[derive(Clone, Debug, PartialEq, Eq)]
pub struct Group {
    /// Unique identifier, assigned in sequence from 1.
    pub id: u64,
    /// Who created the group; always the first member.
    pub creator: Address,
    /// What every member pays in every cycle.
    pub contribution_amount: i128,
    /// Length of a cycle in seconds.
    pub cycle_duration: u64,
    /// Most members the group may have.
    pub max_members: u32,
    /// The members, in the order in which they joined.
    pub members: soroban_sdk::Vec<Address>,
    /// The running cycle, counted from 1.
    pub current_cycle: u32,
    /// Position in `members` of who receives the next payout.
    pub payout_index: u32,
    /// When the group was created.
    pub created_at: u64,
    /// When the running cycle started.
    pub cycle_start_time: u64,
    /// Whether every member has received a payout.
    pub is_complete: bool,
    /// Seconds after the end of a cycle in which a late contribution is
    /// still taken, with a penalty.
    pub grace_period: u64,
    /// Penalty on a late contribution, in percent of the contribution.
    pub penalty_rate: u32,
}

/// The content of a [`Group`], with its members as a sequence.
pub struct GroupView {
    pub id: u64,
    pub creator: Address,
    pub contribution_amount: i128,
    pub cycle_duration: u64,
    pub max_members: u32,
    pub members: Seq<Address>,
    pub current_cycle: u32,
    pub payout_index: u32,
    pub created_at: u64,
    pub cycle_start_time: u64,
    pub is_complete: bool,
    pub grace_period: u64,
    pub penalty_rate: u32,
}

/// The addresses that a host vector holds, in order. Meaningful where every
/// position holds an address.
pub open spec fn addresses(v: soroban_sdk::Vec<Address>) -> Seq<Address> {
    Seq::new(slots(v).len(), |i: int| slots(v)[i].unwrap())
}

/// Every position of the host vector holds an address.
pub open spec fn holds_addresses(v: soroban_sdk::Vec<Address>) -> bool {
    forall|i: int| 0 <= i < slots(v).len() ==> (#[trigger] slots(v)[i]) is Some
}

impl View for Group {
    type V = GroupView;

    open spec fn view(&self) -> GroupView {
        GroupView {
            id: self.id,
            creator: self.creator,
            contribution_amount: self.contribution_amount,
            cycle_duration: self.cycle_duration,
            max_members: self.max_members,
            members: addresses(self.members),
            current_cycle: self.current_cycle,
            payout_index: self.payout_index,
            created_at: self.created_at,
            cycle_start_time: self.cycle_start_time,
            is_complete: self.is_complete,
            grace_period: self.grace_period,
            penalty_rate: self.penalty_rate,
        }
    }
}

impl GroupView {
    /// End of the running cycle: contributions before it are on time.
    pub open spec fn cycle_end(self) -> int {
        self.cycle_start_time + self.cycle_duration
    }

    /// End of the grace period of the running cycle: from here on no
    /// contribution is taken and the payout may be made.
    pub open spec fn grace_end(self) -> int {
        self.cycle_start_time + self.cycle_duration + self.grace_period
    }

    /// `t` lies in the running cycle.
    pub open spec fn in_cycle_window(self, t: u64) -> bool {
        self.cycle_start_time <= t < self.cycle_end()
    }

    /// `t` lies in the grace period of the running cycle.
    pub open spec fn in_grace_period(self, t: u64) -> bool {
        self.cycle_end() <= t < self.grace_end()
    }

    /// `address` is a member.
    pub open spec fn has_member(self, address: Address) -> bool {
        self.members.contains(address)
    }

    /// The terms are valid and the rotation is consistent:
    /// the creator is the first member, no address occurs twice, the group is
    /// not over its size, the payout position follows the cycle, and the
    /// group is complete exactly when as many payouts were made as it has
    /// members.
    pub open spec fn wf(self) -> bool {
        &&& self.id >= 1
        &&& self.contribution_amount > 0
        &&& self.cycle_duration > 0
        &&& MIN_MEMBERS <= self.max_members <= MAX_MEMBERS_LIMIT
        &&& self.grace_period <= MAX_GRACE_PERIOD
        &&& self.penalty_rate <= MAX_PENALTY_RATE
        &&& 1 <= self.members.len() <= self.max_members
        &&& self.members.no_duplicates()
        &&& self.members[0] == self.creator
        &&& self.current_cycle >= 1
        &&& self.payout_index == (self.current_cycle - 1) % (self.members.len() as int)
        &&& self.is_complete == (self.current_cycle > self.members.len())
    }
}

impl Group {
    /// The members are addresses and the content is well formed.
    pub open spec fn wf(&self) -> bool {
        &&& holds_addresses(self.members)
        &&& self@.wf()
    }
}

/// The contents of the groups, in order.
pub open spec fn group_views(groups: Seq<Group>) -> Seq<GroupView> {
    Seq::new(groups.len(), |i: int| groups[i]@)
}

/// That a member has paid in a cycle of a group, and how.
#[derive(Clone, Debug, PartialEq, Eq)]
pub struct ContributionRecord {
    pub member: Address,
    pub group_id: u64,
    pub cycle: u32,
    pub has_paid: bool,
    /// When the contribution was made.
    pub timestamp: u64,
    /// Whether it was made in the grace period.
    pub is_late: bool,
    /// The penalty paid with it; 0 when on time.
    pub penalty_amount: i128,
}

/// The running record of a member's punctuality in a group.
#[derive(Clone, Debug, PartialEq, Eq)]
pub struct MemberPenaltyRecord {
    pub member: Address,
    pub group_id: u64,
    /// Contributions made in a grace period.
    pub late_count: u32,
    /// Contributions made in their cycle.
    pub on_time_count: u32,
    /// Sum of the penalties paid.
    pub total_penalties: i128,
    /// Share of the contributions that were on time, in percent, rounded
    /// down; 100 before the first contribution.
    pub reliability_score: u32,
}

/// The penalties collected in a cycle of a group.
#[derive(Clone, Debug, PartialEq, Eq)]
pub struct CyclePenaltyPool {
    pub group_id: u64,
    pub cycle: u32,
    pub amount: i128,
}

/// That the payout of a cycle of a group was made.
#[derive(Clone, Debug, PartialEq, Eq)]
pub struct PayoutRecord {
    pub member: Address,
    pub group_id: u64,
    pub cycle: u32,
    pub amount: i128,
    pub timestamp: u64,
}

/// Where a group stands at a moment.
#[derive(Clone, Copy, Debug, PartialEq, Eq, Structural)]
pub struct GroupStatus {
    /// The moment lies in the running cycle.
    pub is_cycle_active: bool,
    /// The moment lies in the grace period of the running cycle.
    pub is_in_grace_period: bool,
    /// The penalties collected in the running cycle so far.
    pub cycle_penalty_pool: i128,
}

/// What the transfer primitive answered.
#[derive(Clone, Copy, Debug, PartialEq, Eq, Structural)]
pub enum TransferOutcome {
    /// The amount was moved.
    Completed,
    /// The payer's balance does not cover the amount.
    InsufficientBalance,
    /// The transfer failed for another reason.
    Failed,
}

/// What a member has to pay for a contribution, and how it is classified.
#[derive(Clone, Copy, Debug, PartialEq, Eq, Structural)]
pub struct ContributionDue {
    /// What is to be moved from the member: the contribution and the
    /// penalty.
    pub amount: i128,
    /// Whether the contribution falls in the grace period.
    pub is_late: bool,
    /// The penalty in `amount`; 0 when on time.
    pub penalty_amount: i128,
}

/// Who is to be paid in a payout, and how much.
#[derive(Clone, Debug, PartialEq, Eq)]
pub struct PayoutDue {
    /// The member whose turn it is.
    pub recipient: Address,
    /// The contributions of all members and the penalties of the cycle.
    pub amount: i128,
}

} // verus!
