//! Every operation keeps the state well formed.

use crate::model::{group_after_payout, new_group, penalty_at, turn_of, AjoState};
use crate::tables::{
    contribution_key, first_penalty_record_at, first_pool_at, has_contributed, has_payout,
    has_penalty_record, has_pool, lemma_first_penalty_record, lemma_first_pool, payout_key, penalty_key,
    penalty_record_index, penalty_record_of, pool_credited, pool_index, pool_key, pool_of,
};
use crate::types::{
    ContributionRecord, CyclePenaltyPool, GroupView, MemberPenaltyRecord, PayoutRecord, TransferOutcome,
};
use crate::utils::{
    lemma_penalty_bounded, lemma_reliability_range, penalty_record_updated, penalty_recorded,
    penalty_update_fits,
};
use soroban_sdk::Address;
use vstd::prelude::*;

verus! {

/// A group keeps its form when an address that is not a member joins
/// while it is incomplete and has room.
pub proof fn lemma_join_keeps_form(g: GroupView, member: Address)
    requires
        g.wf(),
        !g.is_complete,
        !g.has_member(member),
        g.members.len() < g.max_members,
    ensures
        (GroupView { members: g.members.push(member), ..g }).wf(),
{
    let after = GroupView { members: g.members.push(member), ..g };
    let n = g.members.len() as int;
    assert(after.members.len() == n + 1);
    assert(after.members[0] == g.members[0]);
    assert forall|i: int, j: int|
        0 <= i < after.members.len() && 0 <= j < after.members.len() && i != j implies after.members[i]
        != after.members[j] by {
        if i < n && j < n {
        } else if i < n {
            assert(g.members[i] != member);
        } else {
            assert(g.members[j] != member);
        }
    }
    let turn = g.current_cycle - 1;
    assert(0 <= turn < n);
    vstd::arithmetic::div_mod::lemma_small_mod(turn as nat, n as nat);
    vstd::arithmetic::div_mod::lemma_small_mod(turn as nat, (n + 1) as nat);
}

/// A group keeps its form over a payout.
pub proof fn lemma_payout_keeps_form(g: GroupView, now: u64)
    requires
        g.wf(),
        g.current_cycle < u32::MAX,
    ensures
        group_after_payout(g, now).wf(),
        (g.payout_index + 1) % (g.members.len() as int) == (g.current_cycle as int) % (g.members.len() as int),
{
    let n = g.members.len() as int;
    let turn = g.current_cycle - 1;
    vstd::arithmetic::div_mod::lemma_add_mod_noop_right(1, turn, n);
    assert((1 + turn % n) % n == (1 + turn) % n);
    assert(0 <= (g.current_cycle as int) % n < n) by (nonlinear_arith)
        requires
            n > 0,
    ;
}

/// A key has a contribution in a table with one more record exactly when
/// it had one before or the new record carries it.
pub proof fn lemma_contribution_pushed(
    s: Seq<ContributionRecord>,
    r: ContributionRecord,
    group_id: u64,
    cycle: u32,
    member: Address,
)
    ensures
        has_contributed(s.push(r), group_id, cycle, member) == (has_contributed(s, group_id, cycle, member)
            || contribution_key(r, group_id, cycle, member)),
{
    let t = s.push(r);
    if has_contributed(s, group_id, cycle, member) {
        let i = choose|i: int| 0 <= i < s.len() && contribution_key(s[i], group_id, cycle, member);
        assert(contribution_key(t[i], group_id, cycle, member));
    }
    if contribution_key(r, group_id, cycle, member) {
        assert(contribution_key(t[s.len() as int], group_id, cycle, member));
    }
    if has_contributed(t, group_id, cycle, member) {
        let i = choose|i: int| 0 <= i < t.len() && contribution_key(t[i], group_id, cycle, member);
        if i < s.len() {
            assert(contribution_key(s[i], group_id, cycle, member));
        }
    }
}

/// A key has a payout in a table with one more record exactly when it
/// had one before or the new record carries it.
pub proof fn lemma_payout_pushed(s: Seq<PayoutRecord>, r: PayoutRecord, group_id: u64, cycle: u32)
    ensures
        has_payout(s.push(r), group_id, cycle) == (has_payout(s, group_id, cycle) || payout_key(
            r,
            group_id,
            cycle,
        )),
{
    let t = s.push(r);
    if has_payout(s, group_id, cycle) {
        let i = choose|i: int| 0 <= i < s.len() && payout_key(s[i], group_id, cycle);
        assert(payout_key(t[i], group_id, cycle));
    }
    if payout_key(r, group_id, cycle) {
        assert(payout_key(t[s.len() as int], group_id, cycle));
    }
    if has_payout(t, group_id, cycle) {
        let i = choose|i: int| 0 <= i < t.len() && payout_key(t[i], group_id, cycle);
        if i < s.len() {
            assert(payout_key(s[i], group_id, cycle));
        }
    }
}

/// The turns of the cycles that an incomplete group has left behind stay
/// with their members when a member joins, and the members stay members.
pub proof fn lemma_join_keeps_turns(g: GroupView, member: Address, cycle: u32)
    requires
        g.wf(),
        !g.is_complete,
        1 <= cycle <= g.current_cycle,
    ensures
        turn_of(GroupView { members: g.members.push(member), ..g }, cycle) == turn_of(g, cycle),
        forall|m: Address| g.has_member(m) ==> (GroupView { members: g.members.push(member), ..g }).has_member(m),
{
    let after = GroupView { members: g.members.push(member), ..g };
    let n = g.members.len() as int;
    let turn = cycle - 1;
    vstd::arithmetic::div_mod::lemma_small_mod(turn as nat, n as nat);
    vstd::arithmetic::div_mod::lemma_small_mod(turn as nat, (n + 1) as nat);
    assert(after.members[turn] == g.members[turn]);
    assert forall|m: Address| g.has_member(m) implies after.has_member(m) by {
        let i = choose|i: int| 0 <= i < g.members.len() && g.members[i] == m;
        assert(after.members[i] == m);
    }
}

/// The record of a key is a record of the table that carries the key, or
/// the fresh record.
pub proof fn lemma_penalty_record_of(s: Seq<MemberPenaltyRecord>, group_id: u64, member: Address)
    ensures
        penalty_key(penalty_record_of(s, group_id, member), group_id, member),
        has_penalty_record(s, group_id, member) ==> first_penalty_record_at(
            s,
            group_id,
            member,
            penalty_record_index(s, group_id, member),
        ),
{
    if has_penalty_record(s, group_id, member) {
        let w = choose|w: int| 0 <= w < s.len() && penalty_key(s[w], group_id, member);
        lemma_first_penalty_record(s, group_id, member, w);
    }
}

/// The pool of a key is the amount of a pool of the table, or 0.
pub proof fn lemma_pool_of(s: Seq<CyclePenaltyPool>, group_id: u64, cycle: u32)
    ensures
        has_pool(s, group_id, cycle) ==> first_pool_at(s, group_id, cycle, pool_index(s, group_id, cycle)),
        (forall|i: int| 0 <= i < s.len() ==> (#[trigger] s[i]).amount >= 0) ==> pool_of(s, group_id, cycle)
            >= 0,
{
    if has_pool(s, group_id, cycle) {
        let w = choose|w: int| 0 <= w < s.len() && pool_key(s[w], group_id, cycle);
        lemma_first_pool(s, group_id, cycle, w);
    }
}

/// In a well-formed state, a member who may contribute has fewer
/// contributions counted than the running cycle's number, so that one more
/// can be counted, and no negative sum of penalties.
pub proof fn lemma_counts_fit(s: AjoState, member: Address, group_id: u64, now: u64)
    requires
        s.wf(),
        s.contribution_fits(member, group_id, now),
        s.contribution_due(member, group_id, now) is Ok,
    ensures
        ({
            let g = s.group(group_id)->0;
            let prev = penalty_record_of(s.penalty_records, group_id, member);
            &&& 0 <= penalty_at(g, now) <= g.contribution_amount
            &&& prev.late_count + prev.on_time_count < g.current_cycle
            &&& prev.total_penalties >= 0
            &&& penalty_update_fits(prev, g.in_grace_period(now), penalty_at(g, now) as i128)
            &&& 0 <= pool_of(s.penalty_pools, group_id, g.current_cycle)
        }),
{
    let g = s.groups[group_id - 1];
    assert(g.wf());
    lemma_penalty_bounded(g.contribution_amount as int, g.penalty_rate as int);
    lemma_penalty_record_of(s.penalty_records, group_id, member);
    lemma_pool_of(s.penalty_pools, group_id, g.current_cycle);
    if has_penalty_record(s.penalty_records, group_id, member) {
        let k = penalty_record_index(s.penalty_records, group_id, member);
        assert(s.penalty_record_in_range(s.penalty_records[k]));
    }
}

/// Creating a group keeps the state well formed.
pub proof fn theorem_create_group_keeps_wf(
    s: AjoState,
    creator: Address,
    amount: i128,
    duration: u64,
    max_members: u32,
    grace_period: u64,
    penalty_rate: u32,
    now: u64,
)
    requires
        s.wf(),
        s.groups.len() < u64::MAX,
        s.create_group_verdict(amount, duration, max_members, grace_period, penalty_rate) is Ok,
    ensures
        s.with_group_created(creator, amount, duration, max_members, grace_period, penalty_rate, now).wf(),
{
    let post = s.with_group_created(creator, amount, duration, max_members, grace_period, penalty_rate, now);
    let id = (s.groups.len() + 1) as u64;
    let g = new_group(id, creator, amount, duration, max_members, grace_period, penalty_rate, now);
    vstd::arithmetic::div_mod::lemma_small_mod(0, 1);
    assert(g.wf());
    assert forall|i: int| 0 <= i < post.groups.len() implies (#[trigger] post.groups[i]).wf()
        && post.groups[i].id == i + 1 by {
        if i < s.groups.len() {
            assert(post.groups[i] == s.groups[i]);
        }
    }
    assert forall|x: u64| s.group(x) is Some implies post.group(x) == s.group(x) by {
        assert(post.groups[x - 1] == s.groups[x - 1]);
    }
    assert forall|i: int| 0 <= i < post.contributions.len() implies post.contribution_in_range(
        #[trigger] post.contributions[i],
    ) by {
        assert(s.contribution_in_range(s.contributions[i]));
    }
    assert forall|i: int| 0 <= i < post.payouts.len() implies post.payout_in_range(
        #[trigger] post.payouts[i],
    ) by {
        assert(s.payout_in_range(s.payouts[i]));
    }
    assert forall|group_id: u64, cycle: u32|
        post.group(group_id) is Some && 1 <= cycle < post.group(group_id)->0.current_cycle implies #[trigger] has_payout(
        post.payouts,
        group_id,
        cycle,
    ) by {
        if group_id != id {
            assert(s.group(group_id) is Some);
        }
    }
    assert forall|i: int| 0 <= i < post.penalty_records.len() implies post.penalty_record_in_range(
        #[trigger] post.penalty_records[i],
    ) by {
        assert(s.penalty_record_in_range(s.penalty_records[i]));
    }
}

/// Joining a group keeps the state well formed.
pub proof fn theorem_join_group_keeps_wf(s: AjoState, caller: Address, member: Address, group_id: u64)
    requires
        s.wf(),
        s.join_group_verdict(caller, member, group_id) is Ok,
    ensures
        s.with_member_joined(member, group_id).wf(),
{
    let post = s.with_member_joined(member, group_id);
    let g = s.groups[group_id - 1];
    lemma_join_keeps_form(g, member);
    assert forall|i: int| 0 <= i < post.groups.len() implies (#[trigger] post.groups[i]).wf()
        && post.groups[i].id == i + 1 by {
        if i != group_id - 1 {
            assert(post.groups[i] == s.groups[i]);
        }
    }
    assert forall|x: u64| s.group(x) is Some implies post.group(x) is Some && post.group(
        x,
    )->0.current_cycle == s.group(x)->0.current_cycle && (x != group_id ==> post.group(x) == s.group(
        x,
    )) by {
        if x != group_id {
            assert(post.groups[x - 1] == s.groups[x - 1]);
        }
    }
    assert forall|i: int| 0 <= i < post.contributions.len() implies post.contribution_in_range(
        #[trigger] post.contributions[i],
    ) by {
        let r = s.contributions[i];
        assert(s.contribution_in_range(r));
        if r.group_id == group_id {
            lemma_join_keeps_turns(g, member, r.cycle);
        }
    }
    assert forall|i: int| 0 <= i < post.payouts.len() implies post.payout_in_range(
        #[trigger] post.payouts[i],
    ) by {
        let r = s.payouts[i];
        assert(s.payout_in_range(r));
        if r.group_id == group_id {
            lemma_join_keeps_turns(g, member, r.cycle);
        }
    }
    assert forall|x: u64, cycle: u32|
        post.group(x) is Some && 1 <= cycle < post.group(x)->0.current_cycle implies #[trigger] has_payout(
        post.payouts,
        x,
        cycle,
    ) by {
        assert(s.group(x) is Some);
    }
    assert forall|i: int| 0 <= i < post.penalty_records.len() implies post.penalty_record_in_range(
        #[trigger] post.penalty_records[i],
    ) by {
        assert(s.penalty_record_in_range(s.penalty_records[i]));
    }
}

/// Contributing keeps the state well formed.
pub proof fn theorem_contribute_keeps_wf(
    s: AjoState,
    member: Address,
    group_id: u64,
    now: u64,
    transfer: TransferOutcome,
)
    requires
        s.wf(),
        s.contribution_fits(member, group_id, now),
        s.contribute_verdict(member, group_id, now, transfer) is Ok,
    ensures
        s.with_contribution(member, group_id, now).wf(),
{
    let post = s.with_contribution(member, group_id, now);
    let g = s.groups[group_id - 1];
    let cycle = g.current_cycle;
    let is_late = g.in_grace_period(now);
    let penalty = penalty_at(g, now) as i128;
    lemma_counts_fit(s, member, group_id, now);
    let added = post.contributions[s.contributions.len() as int];
    assert(contribution_key(added, group_id, cycle, member));
    assert(g.wf());

    assert forall|i: int| 0 <= i < post.contributions.len() implies post.contribution_in_range(
        #[trigger] post.contributions[i],
    ) by {
        if i < s.contributions.len() {
            assert(post.contributions[i] == s.contributions[i]);
            assert(s.contribution_in_range(s.contributions[i]));
        }
    }
    assert forall|i: int, j: int| 0 <= i < j < post.contributions.len() implies !contribution_key(
        #[trigger] post.contributions[i],
        (#[trigger] post.contributions[j]).group_id,
        post.contributions[j].cycle,
        post.contributions[j].member,
    ) by {
        assert(post.contributions[i] == s.contributions[i]);
        if j < s.contributions.len() {
            assert(post.contributions[j] == s.contributions[j]);
        }
    }
    assert forall|i: int| 0 <= i < post.payouts.len() implies post.payout_in_range(
        #[trigger] post.payouts[i],
    ) by {
        assert(s.payout_in_range(s.payouts[i]));
    }

    let prev = penalty_record_of(s.penalty_records, group_id, member);
    let next = penalty_record_updated(prev, is_late, penalty);
    let late = prev.late_count + if is_late { 1int } else { 0int };
    let on_time = prev.on_time_count + if is_late { 0int } else { 1int };
    lemma_reliability_range(on_time, late);
    lemma_penalty_record_of(s.penalty_records, group_id, member);
    lemma_contribution_pushed(s.contributions, added, group_id, cycle, member);
    assert(post.penalty_record_in_range(next));
    let t = penalty_recorded(s.penalty_records, group_id, member, is_late, penalty);
    assert forall|i: int| 0 <= i < t.len() implies post.penalty_record_in_range(#[trigger] t[i]) by {
        let unchanged = if has_penalty_record(s.penalty_records, group_id, member) {
            i != penalty_record_index(s.penalty_records, group_id, member)
        } else {
            i < s.penalty_records.len()
        };
        if unchanged {
            let r = s.penalty_records[i];
            assert(t[i] == r);
            assert(s.penalty_record_in_range(r));
            lemma_contribution_pushed(
                s.contributions,
                added,
                r.group_id,
                s.group(r.group_id)->0.current_cycle,
                r.member,
            );
        } else {
            assert(t[i] == next);
        }
    }

    lemma_pool_of(s.penalty_pools, group_id, cycle);
    let pools = pool_credited(s.penalty_pools, group_id, cycle, penalty);
    assert forall|i: int| 0 <= i < pools.len() implies (#[trigger] pools[i]).amount >= 0 by {
        let unchanged = if has_pool(s.penalty_pools, group_id, cycle) {
            i != pool_index(s.penalty_pools, group_id, cycle)
        } else {
            i < s.penalty_pools.len()
        };
        if unchanged {
            assert(pools[i] == s.penalty_pools[i]);
        }
    }
}

/// Paying out keeps the state well formed.
pub proof fn theorem_execute_payout_keeps_wf(s: AjoState, group_id: u64, now: u64, transfer: TransferOutcome)
    requires
        s.wf(),
        s.payout_fits(group_id, now),
        s.execute_payout_verdict(group_id, now, transfer) is Ok,
    ensures
        s.with_payout(group_id, now).wf(),
{
    let post = s.with_payout(group_id, now);
    let g = s.groups[group_id - 1];
    let h = group_after_payout(g, now);
    let cycle = g.current_cycle;
    lemma_payout_keeps_form(g, now);
    assert(g.wf());
    assert forall|i: int| 0 <= i < post.groups.len() implies (#[trigger] post.groups[i]).wf()
        && post.groups[i].id == i + 1 by {
        if i != group_id - 1 {
            assert(post.groups[i] == s.groups[i]);
        }
    }
    assert forall|x: u64| s.group(x) is Some implies post.group(x) is Some && (if x == group_id {
        post.group(x) == Some(h)
    } else {
        post.group(x) == s.group(x)
    }) by {
        if x != group_id {
            assert(post.groups[x - 1] == s.groups[x - 1]);
        }
    }
    assert(h.members == g.members);
    assert(h.current_cycle == cycle + 1);
    assert forall|i: int| 0 <= i < post.contributions.len() implies post.contribution_in_range(
        #[trigger] post.contributions[i],
    ) by {
        assert(s.contribution_in_range(s.contributions[i]));
    }
    let added = post.payouts[s.payouts.len() as int];
    assert(payout_key(added, group_id, cycle));
    assert(added.member == turn_of(g, cycle));
    assert forall|i: int| 0 <= i < post.payouts.len() implies post.payout_in_range(
        #[trigger] post.payouts[i],
    ) by {
        if i < s.payouts.len() {
            assert(post.payouts[i] == s.payouts[i]);
            assert(s.payout_in_range(s.payouts[i]));
        }
    }
    assert forall|x: u64, c: u32|
        post.group(x) is Some && 1 <= c < post.group(x)->0.current_cycle implies #[trigger] has_payout(
        post.payouts,
        x,
        c,
    ) by {
        assert(s.group(x) is Some);
        lemma_payout_pushed(s.payouts, added, x, c);
        if !(x == group_id && c == cycle) {
            assert(has_payout(s.payouts, x, c));
        }
    }
    assert forall|i: int, j: int| 0 <= i < j < post.payouts.len() implies !payout_key(
        #[trigger] post.payouts[i],
        (#[trigger] post.payouts[j]).group_id,
        post.payouts[j].cycle,
    ) by {
        assert(post.payouts[i] == s.payouts[i]);
        assert(s.payout_in_range(s.payouts[i]));
        if j < s.payouts.len() {
            assert(post.payouts[j] == s.payouts[j]);
        }
    }
    assert forall|i: int| 0 <= i < post.penalty_records.len() implies post.penalty_record_in_range(
        #[trigger] post.penalty_records[i],
    ) by {
        assert(s.penalty_record_in_range(s.penalty_records[i]));
    }
}

/// Setting the pause switch keeps the state well formed.
pub proof fn theorem_pause_keeps_wf(s: AjoState, paused: bool)
    requires
        s.wf(),
    ensures
        s.with_paused(paused).wf(),
{
    let post = s.with_paused(paused);
    assert forall|i: int| 0 <= i < post.contributions.len() implies post.contribution_in_range(
        #[trigger] post.contributions[i],
    ) by {
        assert(s.contribution_in_range(s.contributions[i]));
    }
    assert forall|i: int| 0 <= i < post.payouts.len() implies post.payout_in_range(
        #[trigger] post.payouts[i],
    ) by {
        assert(s.payout_in_range(s.payouts[i]));
    }
    assert forall|x: u64, c: u32|
        post.group(x) is Some && 1 <= c < post.group(x)->0.current_cycle implies #[trigger] has_payout(
        post.payouts,
        x,
        c,
    ) by {
        assert(s.group(x) is Some);
    }
    assert forall|i: int| 0 <= i < post.penalty_records.len() implies post.penalty_record_in_range(
        #[trigger] post.penalty_records[i],
    ) by {
        assert(s.penalty_record_in_range(s.penalty_records[i]));
    }
}

} // verus!
