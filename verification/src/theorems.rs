//! What holds of the state machine, whatever the order of operations.

use crate::errors::AjoError;
use crate::model::{new_group, penalty_at, turn_of, AjoState};
use crate::preservation::{
    lemma_join_keeps_form, lemma_payout_keeps_form, theorem_execute_payout_keeps_wf,
};
use crate::tables::{
    contribution_key, contribution_of, first_contribution_at, first_payout_at,
    lemma_first_contribution, has_contributed, has_payout, has_penalty_record, lemma_first_payout,
    lemma_first_penalty_record, payout_key, payout_of, penalty_key, penalty_record_index,
    penalty_record_of, pool_of,
};
use crate::types::{ContributionDue, TransferOutcome};
use crate::utils::{
    group_params_verdict, lemma_penalty_bounded, lemma_pushed_record_found, lemma_reliability_range,
    lemma_updated_record_found, penalty_params_verdict, penalty_record_updated,
};
use soroban_sdk::Address;
use vstd::prelude::*;

verus! {

// Groups

/// A new contract is well formed, and the first group created in it gets
/// id 1.
pub proof fn theorem_first_group_has_id_one(
    admin: Address,
    amount: i128,
    duration: u64,
    max_members: u32,
    grace_period: u64,
    penalty_rate: u32,
)
    requires
        group_params_verdict(amount, duration, max_members) is Ok,
        penalty_params_verdict(grace_period, penalty_rate) is Ok,
    ensures
        AjoState::initial(admin).wf(),
        AjoState::initial(admin).create_group_verdict(
            amount,
            duration,
            max_members,
            grace_period,
            penalty_rate,
        ) == Ok::<u64, AjoError>(1),
{
}

/// The ids of the groups count up from 1 in the order of creation: the
/// first group has id 1, and a later group has a larger id.
pub proof fn theorem_ids_count_from_one(s: AjoState, i: int, j: int)
    requires
        s.wf(),
        0 <= i < j < s.groups.len(),
    ensures
        s.groups[0].id == 1,
        s.groups[i].id < s.groups[j].id,
        s.groups[j].id == s.groups[i].id + (j - i),
{
    assert(s.groups[0].wf());
    assert(s.groups[i].wf());
    assert(s.groups[j].wf());
}

/// Two groups created one after the other get ids that follow each other,
/// and the first group ever created gets id 1.
pub proof fn theorem_created_ids_follow(
    s: AjoState,
    creator: Address,
    amount: i128,
    duration: u64,
    max_members: u32,
    grace_period: u64,
    penalty_rate: u32,
    now: u64,
)
    requires
        s.wf(),
        s.groups.len() + 2 <= u64::MAX,
        s.create_group_verdict(amount, duration, max_members, grace_period, penalty_rate) is Ok,
    ensures
        ({
            let first = s.create_group_verdict(amount, duration, max_members, grace_period, penalty_rate);
            let after = s.with_group_created(
                creator,
                amount,
                duration,
                max_members,
                grace_period,
                penalty_rate,
                now,
            );
            let second = after.create_group_verdict(
                amount,
                duration,
                max_members,
                grace_period,
                penalty_rate,
            );
            &&& s.groups.len() == 0 ==> first == Ok::<u64, AjoError>(1)
            &&& second is Ok
            &&& second->Ok_0 == first->Ok_0 + 1
            &&& after.group(first->Ok_0) == Some(
                new_group(
                    first->Ok_0,
                    creator,
                    amount,
                    duration,
                    max_members,
                    grace_period,
                    penalty_rate,
                    now,
                ),
            )
        }),
{
}

/// The creator of a group is its first member, in every state.
pub proof fn theorem_creator_is_first_member(s: AjoState, group_id: u64)
    requires
        s.wf(),
        s.group(group_id) is Some,
    ensures
        s.group(group_id)->0.members.len() >= 1,
        s.group(group_id)->0.members[0] == s.group(group_id)->0.creator,
        s.group(group_id)->0.id == group_id,
{
    assert(s.groups[group_id - 1].wf());
}

// Membership

/// A group that has as many members as it allows takes no more: whoever
/// asks to join is refused, with `GroupFull` where nothing else stands
/// against it.
pub proof fn theorem_full_group_takes_no_member(s: AjoState, caller: Address, member: Address, group_id: u64)
    requires
        s.wf(),
        s.group(group_id) is Some,
        s.group(group_id)->0.members.len() == s.group(group_id)->0.max_members,
    ensures
        s.join_group_verdict(caller, member, group_id) is Err,
        !s.config.paused && caller == member && !s.group(group_id)->0.is_complete && !s.group(
            group_id,
        )->0.has_member(member) ==> s.join_group_verdict(caller, member, group_id) == Err::<(), AjoError>(
            AjoError::GroupFull,
        ),
{
}

/// A member cannot join again: after joining, a second request of the same
/// address is refused with `AlreadyMember`, and no address ever occurs
/// twice among the members.
pub proof fn theorem_member_joins_once(s: AjoState, caller: Address, member: Address, group_id: u64)
    requires
        s.wf(),
        s.join_group_verdict(caller, member, group_id) is Ok,
    ensures
        s.with_member_joined(member, group_id).join_group_verdict(caller, member, group_id) == Err::<
            (),
            AjoError,
        >(AjoError::AlreadyMember),
        s.with_member_joined(member, group_id).group(group_id)->0.members.no_duplicates(),
{
    let post = s.with_member_joined(member, group_id);
    let g = s.groups[group_id - 1];
    let h = post.groups[group_id - 1];
    lemma_join_keeps_form(g, member);
    assert(h.members[g.members.len() as int] == member);
    assert(h.has_member(member));
    assert(g.current_cycle <= g.members.len());
}

// Contributions

/// A member contributes once in a cycle. The first contribution of a
/// member in the running cycle of a contract that is not paused is taken
/// where it is made before the end of the grace period and the transfer
/// completes; after it, a second one of the same member in the same cycle
/// is refused with `AlreadyContributed`, whenever it is made and whatever
/// the transfer answers.
pub proof fn theorem_one_contribution_per_cycle(
    s: AjoState,
    member: Address,
    group_id: u64,
    now: u64,
    again: u64,
    transfer: TransferOutcome,
)
    requires
        s.wf(),
        !s.config.paused,
        s.group(group_id) is Some,
        s.group(group_id)->0.has_member(member),
        !has_contributed(s.contributions, group_id, s.group(group_id)->0.current_cycle, member),
        s.group(group_id)->0.cycle_start_time <= now < s.group(group_id)->0.grace_end(),
    ensures
        s.contribute_verdict(member, group_id, now, TransferOutcome::Completed) is Ok,
        s.with_contribution(member, group_id, now).contribute_verdict(member, group_id, again, transfer)
            == Err::<(), AjoError>(AjoError::AlreadyContributed),
{
    let post = s.with_contribution(member, group_id, now);
    let g = s.groups[group_id - 1];
    let i = s.contributions.len() as int;
    assert(contribution_key(post.contributions[i], group_id, g.current_cycle, member));
    assert(has_contributed(post.contributions, group_id, g.current_cycle, member));
}

/// How the time of a contribution decides, for a member who has not
/// contributed in the running cycle of a group of a contract that is not
/// paused: in the cycle the contribution is on time and costs the amount;
/// in the grace period it is late and costs the amount and the penalty,
/// the rate in percent of the amount, rounded down; from the end of the
/// grace period on it is refused with `GracePeriodExpired` and the state
/// stays as it is.
pub proof fn theorem_timing_decides(
    s: AjoState,
    post: AjoState,
    contributed: Result<(), AjoError>,
    member: Address,
    group_id: u64,
    t: u64,
    transfer: TransferOutcome,
)
    requires
        s.wf(),
        !s.config.paused,
        s.group(group_id) is Some,
        s.group(group_id)->0.has_member(member),
        !has_contributed(s.contributions, group_id, s.group(group_id)->0.current_cycle, member),
        s.due_fits(member, group_id, t),
        s.contributes(post, contributed, member, group_id, t, transfer),
    ensures
        ({
            let g = s.group(group_id)->0;
            let start = g.cycle_start_time as int;
            let end = start + g.cycle_duration;
            let grace_end = end + g.grace_period;
            let penalty = (g.contribution_amount * g.penalty_rate) / 100;
            &&& start <= t < end ==> s.contribution_due(member, group_id, t) == Ok::<
                ContributionDue,
                AjoError,
            >(ContributionDue { amount: g.contribution_amount, is_late: false, penalty_amount: 0 })
            &&& end <= t < grace_end ==> s.contribution_due(member, group_id, t) == Ok::<
                ContributionDue,
                AjoError,
            >(
                ContributionDue {
                    amount: (g.contribution_amount + penalty) as i128,
                    is_late: true,
                    penalty_amount: penalty as i128,
                },
            ) && 0 <= penalty <= g.contribution_amount
            &&& t >= grace_end ==> contributed == Err::<(), AjoError>(AjoError::GracePeriodExpired) && post
                == s
        }),
{
    let g = s.group(group_id)->0;
    assert(g.wf());
    lemma_penalty_bounded(g.contribution_amount as int, g.penalty_rate as int);
}

/// After every contribution the member's score is the share of the
/// member's contributions that were on time, in percent, rounded down.
pub proof fn theorem_score_follows_counts(
    s: AjoState,
    member: Address,
    group_id: u64,
    now: u64,
    transfer: TransferOutcome,
)
    requires
        s.wf(),
        s.contribution_fits(member, group_id, now),
        s.contribute_verdict(member, group_id, now, transfer) is Ok,
    ensures
        ({
            let before = penalty_record_of(s.penalty_records, group_id, member);
            let record = penalty_record_of(
                s.with_contribution(member, group_id, now).penalty_records,
                group_id,
                member,
            );
            let late = s.group(group_id)->0.in_grace_period(now);
            &&& record.on_time_count == before.on_time_count + if late { 0int } else { 1int }
            &&& record.late_count == before.late_count + if late { 1int } else { 0int }
            &&& record.total_penalties == before.total_penalties + penalty_at(s.group(group_id)->0, now)
            &&& record.on_time_count + record.late_count > 0
            &&& record.reliability_score == (record.on_time_count * 100) / (record.on_time_count
                + record.late_count)
            &&& record.reliability_score <= 100
        }),
{
    let g = s.groups[group_id - 1];
    assert(g.wf());
    lemma_penalty_bounded(g.contribution_amount as int, g.penalty_rate as int);
    let is_late = g.in_grace_period(now);
    let penalty = penalty_at(g, now) as i128;
    let before = penalty_record_of(s.penalty_records, group_id, member);
    let next = penalty_record_updated(before, is_late, penalty);
    let late = before.late_count + if is_late { 1int } else { 0int };
    let on_time = before.on_time_count + if is_late { 0int } else { 1int };
    lemma_reliability_range(on_time, late);
    if has_penalty_record(s.penalty_records, group_id, member) {
        let w = choose|w: int|
            0 <= w < s.penalty_records.len() && penalty_key(s.penalty_records[w], group_id, member);
        lemma_first_penalty_record(s.penalty_records, group_id, member, w);
        lemma_updated_record_found(
            s.penalty_records,
            group_id,
            member,
            penalty_record_index(s.penalty_records, group_id, member),
            next,
        );
    } else {
        lemma_pushed_record_found(s.penalty_records, group_id, member, next);
    }
}

/// What was recorded stays as it was: no operation changes or removes the
/// contribution of a member in a cycle or the payout of a cycle.
pub proof fn theorem_records_are_kept(
    s: AjoState,
    member: Address,
    group_id: u64,
    now: u64,
    of_member: Address,
    of_group: u64,
    of_cycle: u32,
)
    requires
        s.wf(),
    ensures
        contribution_of(s.contributions, of_group, of_cycle, of_member) is Some ==> contribution_of(
            s.with_contribution(member, group_id, now).contributions,
            of_group,
            of_cycle,
            of_member,
        ) == contribution_of(s.contributions, of_group, of_cycle, of_member),
        payout_of(s.payouts, of_group, of_cycle) is Some ==> payout_of(
            s.with_payout(group_id, now).payouts,
            of_group,
            of_cycle,
        ) == payout_of(s.payouts, of_group, of_cycle),
        s.with_contribution(member, group_id, now).payouts == s.payouts,
        s.with_payout(group_id, now).contributions == s.contributions,
        s.with_member_joined(member, group_id).contributions == s.contributions,
        s.with_member_joined(member, group_id).payouts == s.payouts,
{
    if contribution_of(s.contributions, of_group, of_cycle, of_member) is Some {
        let table = s.contributions;
        let after = s.with_contribution(member, group_id, now).contributions;
        let w = choose|i: int| 0 <= i < table.len() && contribution_key(table[i], of_group, of_cycle, of_member);
        lemma_first_contribution(table, of_group, of_cycle, of_member, w);
        let k = choose|k: int| first_contribution_at(table, of_group, of_cycle, of_member, k);
        assert(after[k] == table[k]);
        assert forall|j: int| 0 <= j < k implies !#[trigger] contribution_key(
            after[j],
            of_group,
            of_cycle,
            of_member,
        ) by {
            assert(after[j] == table[j]);
        }
        assert(first_contribution_at(after, of_group, of_cycle, of_member, k));
        lemma_first_contribution(after, of_group, of_cycle, of_member, k);
        let l = choose|l: int| first_contribution_at(after, of_group, of_cycle, of_member, l);
        assert(l == k);
    }
    if payout_of(s.payouts, of_group, of_cycle) is Some {
        let table = s.payouts;
        let after = s.with_payout(group_id, now).payouts;
        let w = choose|i: int| 0 <= i < table.len() && payout_key(table[i], of_group, of_cycle);
        lemma_first_payout(table, of_group, of_cycle, w);
        let k = choose|k: int| first_payout_at(table, of_group, of_cycle, k);
        assert(after[k] == table[k]);
        assert forall|j: int| 0 <= j < k implies !#[trigger] payout_key(after[j], of_group, of_cycle) by {
            assert(after[j] == table[j]);
        }
        assert(first_payout_at(after, of_group, of_cycle, k));
        lemma_first_payout(after, of_group, of_cycle, k);
        let l = choose|l: int| first_payout_at(after, of_group, of_cycle, l);
        assert(l == k);
    }
}

// Payouts

/// When a payout is made, in a group of a contract that is not paused:
/// before the end of the grace period it is refused with
/// `OutsideCycleWindow` and the state stays as it is; from then on, where
/// the transfer completes, the member whose turn it is receives the
/// contributions of all members and the penalties of the cycle, the turn
/// passes to the next member, wrapping round, and the cycle number grows by
/// one.
pub proof fn theorem_payout_after_grace(
    s: AjoState,
    post: AjoState,
    paid: Result<(), AjoError>,
    group_id: u64,
    now: u64,
    transfer: TransferOutcome,
)
    requires
        s.wf(),
        !s.config.paused,
        s.group(group_id) is Some,
        s.payout_fits(group_id, now),
        s.pays_out(post, paid, group_id, now, transfer),
    ensures
        ({
            let g = s.group(group_id)->0;
            let n = g.members.len() as int;
            let grace_end = g.cycle_start_time + g.cycle_duration + g.grace_period;
            let total = g.contribution_amount * n + pool_of(
                s.penalty_pools,
                group_id,
                g.current_cycle,
            );
            &&& now < grace_end ==> paid == Err::<(), AjoError>(AjoError::OutsideCycleWindow) && post == s
            &&& now >= grace_end && transfer == TransferOutcome::Completed ==> {
                &&& paid is Ok
                &&& s.payout_due(group_id, now) is Ok
                &&& s.payout_due(group_id, now)->Ok_0.recipient == g.members[g.payout_index as int]
                &&& s.payout_due(group_id, now)->Ok_0.amount == total
                &&& post.group(group_id) is Some
                &&& post.group(group_id)->0.payout_index == (g.payout_index + 1) % n
                &&& post.group(group_id)->0.current_cycle == g.current_cycle + 1
                &&& post.group(group_id)->0.cycle_start_time == now
                &&& post.group(group_id)->0.members == g.members
                &&& has_payout(post.payouts, group_id, g.current_cycle)
                &&& post.wf()
            }
        }),
{
    let g = s.group(group_id)->0;
    assert(g.wf());
    let n = g.members.len() as int;
    theorem_running_cycle_is_unpaid(s, group_id);
    if now >= g.grace_end() && transfer == TransferOutcome::Completed {
        lemma_payout_keeps_form(g, now);
        theorem_execute_payout_keeps_wf(s, group_id, now, transfer);
        let i = s.payouts.len() as int;
        assert(payout_key(post.payouts[i], group_id, g.current_cycle));
        assert(0 <= (g.payout_index + 1) % n < n) by (nonlinear_arith)
            requires
                n > 0,
                g.payout_index >= 0,
        ;
    }
}

/// The running cycle of a group has not been paid, in every state: no
/// payout is ever refused with `AlreadyReceivedPayout`.
pub proof fn theorem_running_cycle_is_unpaid(s: AjoState, group_id: u64)
    requires
        s.wf(),
        s.group(group_id) is Some,
    ensures
        !has_payout(s.payouts, group_id, s.group(group_id)->0.current_cycle),
        forall|now: u64, transfer: TransferOutcome| #[trigger]
            s.execute_payout_verdict(group_id, now, transfer) != Err::<(), AjoError>(
                AjoError::AlreadyReceivedPayout,
            ),
{
    let cycle = s.group(group_id)->0.current_cycle;
    if has_payout(s.payouts, group_id, cycle) {
        let i = choose|i: int| 0 <= i < s.payouts.len() && payout_key(s.payouts[i], group_id, cycle);
        assert(s.payout_in_range(s.payouts[i]));
    }
}

/// A new cycle is open to every member: after a payout nobody has
/// contributed in the cycle that starts.
pub proof fn theorem_new_cycle_is_open(
    s: AjoState,
    member: Address,
    group_id: u64,
    now: u64,
    transfer: TransferOutcome,
)
    requires
        s.wf(),
        s.payout_fits(group_id, now),
        s.execute_payout_verdict(group_id, now, transfer) is Ok,
    ensures
        !has_contributed(
            s.with_payout(group_id, now).contributions,
            group_id,
            s.with_payout(group_id, now).group(group_id)->0.current_cycle,
            member,
        ),
{
    let post = s.with_payout(group_id, now);
    let next = post.group(group_id)->0.current_cycle;
    if has_contributed(post.contributions, group_id, next, member) {
        let i = choose|i: int|
            0 <= i < s.contributions.len() && contribution_key(s.contributions[i], group_id, next, member);
        assert(s.contribution_in_range(s.contributions[i]));
    }
}

/// The payout of a cycle is made once: after it, the cycle that was paid
/// is closed, and a payout of the group is taken only for the next cycle.
pub proof fn theorem_one_payout_per_cycle(s: AjoState, group_id: u64, now: u64, transfer: TransferOutcome)
    requires
        s.wf(),
        s.payout_fits(group_id, now),
        s.execute_payout_verdict(group_id, now, transfer) is Ok,
    ensures
        has_payout(
            s.with_payout(group_id, now).payouts,
            group_id,
            s.group(group_id)->0.current_cycle,
        ),
        s.with_payout(group_id, now).group(group_id)->0.current_cycle == s.group(
            group_id,
        )->0.current_cycle + 1,
{
    let post = s.with_payout(group_id, now);
    let g = s.group(group_id)->0;
    let i = s.payouts.len() as int;
    assert(payout_key(post.payouts[i], group_id, g.current_cycle));
}

/// The payouts follow the cycles: a cycle of a group has been paid
/// exactly when the group has left it behind, and it was paid to the member
/// whose turn it was, the members taking turns in the order in which they
/// joined.
pub proof fn theorem_payouts_follow_the_turns(s: AjoState, group_id: u64, cycle: u32)
    requires
        s.wf(),
        s.group(group_id) is Some,
        1 <= cycle,
    ensures
        has_payout(s.payouts, group_id, cycle) == (cycle < s.group(group_id)->0.current_cycle),
        cycle < s.group(group_id)->0.current_cycle ==> {
            &&& payout_of(s.payouts, group_id, cycle) is Some
            &&& payout_of(s.payouts, group_id, cycle)->0.group_id == group_id
            &&& payout_of(s.payouts, group_id, cycle)->0.cycle == cycle
            &&& payout_of(s.payouts, group_id, cycle)->0.member == turn_of(s.group(group_id)->0, cycle)
        },
{
    if has_payout(s.payouts, group_id, cycle) {
        let i = choose|i: int| 0 <= i < s.payouts.len() && payout_key(s.payouts[i], group_id, cycle);
        assert(s.payout_in_range(s.payouts[i]));
        lemma_first_payout(s.payouts, group_id, cycle, i);
        let k = choose|k: int| first_payout_at(s.payouts, group_id, cycle, k);
        assert(s.payout_in_range(s.payouts[k]));
    }
}

/// A group is complete exactly when every member has been paid: when the
/// cycles of all its members, in the order in which they joined, have been
/// paid.
pub proof fn theorem_complete_when_all_are_paid(s: AjoState, group_id: u64)
    requires
        s.wf(),
        s.group(group_id) is Some,
    ensures
        s.group(group_id)->0.is_complete == (forall|cycle: u32|
            1 <= cycle <= s.group(group_id)->0.members.len() ==> #[trigger] has_payout(
                s.payouts,
                group_id,
                cycle,
            )),
{
    let g = s.group(group_id)->0;
    assert(g.wf());
    let n = g.members.len();
    if g.is_complete {
        assert forall|cycle: u32| 1 <= cycle <= n implies #[trigger] has_payout(
            s.payouts,
            group_id,
            cycle,
        ) by {
            theorem_payouts_follow_the_turns(s, group_id, cycle);
        }
    } else {
        let last = n as u32;
        theorem_payouts_follow_the_turns(s, group_id, last);
        assert(!has_payout(s.payouts, group_id, last));
    }
}

/// When the rotation of a group is complete, every member has received
/// exactly one payout: the member in position `k` that of cycle `k + 1`,
/// and no other.
pub proof fn theorem_each_member_is_paid_once(s: AjoState, group_id: u64)
    requires
        s.wf(),
        s.group(group_id) is Some,
        s.group(group_id)->0.current_cycle == s.group(group_id)->0.members.len() + 1,
    ensures
        s.group(group_id)->0.is_complete,
        forall|cycle: u32|
            1 <= cycle <= s.group(group_id)->0.members.len() ==> {
                &&& (#[trigger] payout_of(s.payouts, group_id, cycle)) is Some
                &&& payout_of(s.payouts, group_id, cycle)->0.member == s.group(group_id)->0.members[cycle
                    - 1]
            },
        forall|i: int, j: int|
            #![trigger s.payouts[i], s.payouts[j]]
            0 <= i < s.payouts.len() && 0 <= j < s.payouts.len() && s.payouts[i].group_id == group_id
                && s.payouts[j].group_id == group_id && s.payouts[i].member == s.payouts[j].member ==> i
                == j,
{
    let g = s.group(group_id)->0;
    assert(g.wf());
    let n = g.members.len() as int;
    assert forall|cycle: u32| 1 <= cycle <= n implies {
        &&& (#[trigger] payout_of(s.payouts, group_id, cycle)) is Some
        &&& payout_of(s.payouts, group_id, cycle)->0.member == g.members[cycle - 1]
    } by {
        theorem_payouts_follow_the_turns(s, group_id, cycle);
        vstd::arithmetic::div_mod::lemma_small_mod((cycle - 1) as nat, n as nat);
    }
    assert forall|i: int, j: int|
        0 <= i < s.payouts.len() && 0 <= j < s.payouts.len() && (#[trigger] s.payouts[i]).group_id
            == group_id && (#[trigger] s.payouts[j]).group_id == group_id && s.payouts[i].member
            == s.payouts[j].member implies i == j by {
        let a = s.payouts[i];
        let b = s.payouts[j];
        assert(s.payout_in_range(a));
        assert(s.payout_in_range(b));
        vstd::arithmetic::div_mod::lemma_small_mod((a.cycle - 1) as nat, n as nat);
        vstd::arithmetic::div_mod::lemma_small_mod((b.cycle - 1) as nat, n as nat);
        assert(g.members[a.cycle - 1] == g.members[b.cycle - 1]);
        assert(a.cycle == b.cycle);
        if i < j {
            assert(!payout_key(s.payouts[i], s.payouts[j].group_id, s.payouts[j].cycle));
        } else if j < i {
            assert(!payout_key(s.payouts[j], s.payouts[i].group_id, s.payouts[i].cycle));
        }
    }
}

/// The members of a group are distinct and at most as many as the group
/// allows, the turn is that of a member, and the cycles are counted from
/// 1, in every state.
pub proof fn theorem_groups_stay_in_form(s: AjoState, group_id: u64)
    requires
        s.wf(),
        s.group(group_id) is Some,
    ensures
        s.group(group_id)->0.members.no_duplicates(),
        1 <= s.group(group_id)->0.members.len() <= s.group(group_id)->0.max_members,
        s.group(group_id)->0.payout_index < s.group(group_id)->0.members.len(),
        s.group(group_id)->0.current_cycle >= 1,
        s.group(group_id)->0.contribution_amount > 0,
        s.group(group_id)->0.cycle_duration > 0,
{
    let g = s.group(group_id)->0;
    assert(g.wf());
    let n = g.members.len() as int;
    assert(0 <= (g.current_cycle - 1) % n < n) by (nonlinear_arith)
        requires
            n > 0,
            g.current_cycle >= 1,
    ;
}

// The pause

/// Only the administrator pauses and unpauses: anyone else is refused,
/// with `UnauthorizedPause` and `UnauthorizedUnpause`.
pub proof fn theorem_pause_needs_admin(s: AjoState, caller: Address)
    requires
        !s.config.is_admin(caller),
    ensures
        s.pause_verdict(caller) == Err::<(), AjoError>(AjoError::UnauthorizedPause),
        s.unpause_verdict(caller) == Err::<(), AjoError>(AjoError::UnauthorizedUnpause),
{
}

/// While the contract is paused, creating a group, joining, contributing
/// and paying out are refused with `ContractPaused`, whatever their
/// arguments.
pub proof fn theorem_paused_refuses_changes(
    s: AjoState,
    caller: Address,
    member: Address,
    group_id: u64,
    amount: i128,
    duration: u64,
    max_members: u32,
    grace_period: u64,
    penalty_rate: u32,
    now: u64,
    transfer: TransferOutcome,
)
    requires
        s.config.paused,
    ensures
        s.create_group_verdict(amount, duration, max_members, grace_period, penalty_rate) == Err::<
            u64,
            AjoError,
        >(AjoError::ContractPaused),
        s.join_group_verdict(caller, member, group_id) == Err::<(), AjoError>(AjoError::ContractPaused),
        s.contribute_verdict(member, group_id, now, transfer) == Err::<(), AjoError>(
            AjoError::ContractPaused,
        ),
        s.execute_payout_verdict(group_id, now, transfer) == Err::<(), AjoError>(AjoError::ContractPaused),
{
}

/// The pause touches nothing but the switch: what is read of groups,
/// contributions, penalty records, pools and payouts is the same paused
/// and unpaused.
pub proof fn theorem_pause_keeps_data(s: AjoState, paused: bool, group_id: u64, now: u64)
    ensures
        s.with_paused(paused).groups == s.groups,
        s.with_paused(paused).contributions == s.contributions,
        s.with_paused(paused).penalty_records == s.penalty_records,
        s.with_paused(paused).penalty_pools == s.penalty_pools,
        s.with_paused(paused).payouts == s.payouts,
        s.with_paused(paused).config.admin == s.config.admin,
        s.with_paused(paused).group(group_id) == s.group(group_id),
        s.with_paused(paused).group_status(group_id, now) == s.group_status(group_id, now),
        s.wf() ==> s.with_paused(paused).wf(),
{
}

/// Pausing and then unpausing a contract that was not paused gives back
/// the state that it had, so every operation answers as before.
pub proof fn theorem_unpause_restores(s: AjoState, admin: Address)
    requires
        !s.config.paused,
        s.config.is_admin(admin),
    ensures
        s.pause_verdict(admin) is Ok,
        s.with_paused(true).unpause_verdict(admin) is Ok,
        s.with_paused(true).with_paused(false) == s,
{
}

} // verus!
