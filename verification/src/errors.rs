//! The closed set of errors that the operations return.

use vstd::prelude::*;

verus! {

/// Why an operation was refused. Every refusal leaves the state as it was.
#[derive(Copy, Clone, Debug, PartialEq, Eq, Structural, PartialOrd, Ord, Hash)]
pub enum AjoError {
    /// No group has the given id.
    GroupNotFound,
    /// The group already has `max_members` members.
    GroupFull,
    /// The address is already a member of the group.
    AlreadyMember,
    /// The address is not a member of the group.
    NotMember,
    /// The member has already contributed in the current cycle.
    AlreadyContributed,
    /// Not every member has contributed in the current cycle.
    IncompleteContributions,
    /// The payout of the current cycle has already been made.
    AlreadyReceivedPayout,
    /// The rotation of the group is complete.
    GroupComplete,
    /// The grace period of the current cycle is over.
    GracePeriodExpired,
    /// The grace period of the current cycle is not over yet.
    OutsideCycleWindow,
    /// The contribution amount is zero.
    ContributionAmountZero,
    /// The contribution amount is negative.
    ContributionAmountNegative,
    /// The cycle duration is zero.
    CycleDurationZero,
    /// Fewer than two members are allowed.
    MaxMembersBelowMinimum,
    /// More than a hundred members are allowed.
    MaxMembersAboveLimit,
    /// The grace period is longer than seven days.
    InvalidGracePeriod,
    /// The penalty rate is above a hundred percent.
    InvalidPenaltyRate,
    /// The payer's balance does not cover the transfer.
    InsufficientBalance,
    /// The transfer failed for another reason.
    TransferFailed,
    /// The group has no members.
    NoMembers,
    /// The caller is not the address the operation is made for.
    Unauthorized,
    /// The caller of `pause` is not the administrator.
    UnauthorizedPause,
    /// The caller of `unpause` is not the administrator.
    UnauthorizedUnpause,
    /// The contract is paused.
    ContractPaused,
}

} // verus!
