//! Executable tests of well-formedness, for state that comes from outside
//! verified code, such as storage.

use crate::host::{same_address, slot_at, slot_count, slots};
use crate::model::{penalty_record_wf, AjoState};
use crate::pausable::Config;
use crate::tables::{
    contribution_key, find_contribution, find_payout, has_contributed, has_payout, payout_key,
    penalty_key, pool_key,
};
use crate::types::{
    addresses, group_views, holds_addresses, ContributionRecord, CyclePenaltyPool, Group,
    MemberPenaltyRecord, PayoutRecord, MAX_GRACE_PERIOD, MAX_MEMBERS_LIMIT, MAX_PENALTY_RATE, MIN_MEMBERS,
};
use crate::utils::{is_member, lemma_membership, lemma_reliability_range};
use soroban_sdk::Address;
use vstd::prelude::*;

verus! {

/// The state that the parts make up.
pub open spec fn state_of(
    config: Config,
    groups: Seq<Group>,
    contributions: Seq<ContributionRecord>,
    penalty_records: Seq<MemberPenaltyRecord>,
    penalty_pools: Seq<CyclePenaltyPool>,
    payouts: Seq<PayoutRecord>,
) -> AjoState {
    AjoState {
        config,
        groups: group_views(groups),
        contributions,
        penalty_records,
        penalty_pools,
        payouts,
    }
}

/// The parts make up a well-formed state, and the members of every group
/// are addresses.
pub open spec fn parts_wf(
    config: Config,
    groups: Seq<Group>,
    contributions: Seq<ContributionRecord>,
    penalty_records: Seq<MemberPenaltyRecord>,
    penalty_pools: Seq<CyclePenaltyPool>,
    payouts: Seq<PayoutRecord>,
) -> bool {
    &&& state_of(config, groups, contributions, penalty_records, penalty_pools, payouts).wf()
    &&& forall|i: int| 0 <= i < groups.len() ==> holds_addresses((#[trigger] groups[i]).members)
}

/// Every group is well formed and carries its position, counted from 1, as
/// its id.
pub open spec fn groups_ok(groups: Seq<Group>) -> bool {
    forall|i: int| 0 <= i < groups.len() ==> (#[trigger] groups[i]).wf() && groups[i].id == i + 1
}

/// The contribution is one of an address held by a group among `groups`,
/// in a cycle that the group has reached.
pub open spec fn contribution_ok(groups: Seq<Group>, r: ContributionRecord) -> bool {
    &&& 1 <= r.group_id <= groups.len()
    &&& 1 <= r.cycle <= groups[r.group_id - 1].current_cycle
    &&& slots(groups[r.group_id - 1].members).contains(Some(r.member))
}

/// Every contribution is in order.
pub open spec fn contributions_ok(groups: Seq<Group>, contributions: Seq<ContributionRecord>) -> bool {
    forall|i: int| 0 <= i < contributions.len() ==> contribution_ok(groups, #[trigger] contributions[i])
}

/// No two contributions are of one member in one cycle of one group.
pub open spec fn contributions_distinct(contributions: Seq<ContributionRecord>) -> bool {
    forall|i: int, j: int|
        #![trigger contributions[i], contributions[j]]
        0 <= i < j < contributions.len() ==> !contribution_key(
            contributions[i],
            contributions[j].group_id,
            contributions[j].cycle,
            contributions[j].member,
        )
}

/// The payout is one of a group among `groups`, for a cycle that the group
/// has left behind, to the address that the group holds in the position
/// whose turn the cycle was.
pub open spec fn payout_ok(groups: Seq<Group>, r: PayoutRecord) -> bool {
    &&& 1 <= r.group_id <= groups.len()
    &&& 1 <= r.cycle < groups[r.group_id - 1].current_cycle
    &&& slots(groups[r.group_id - 1].members).len() > 0
    &&& slots(groups[r.group_id - 1].members)[(r.cycle - 1) % (slots(
        groups[r.group_id - 1].members,
    ).len() as int)] == Some(r.member)
}

/// Every payout is in order.
pub open spec fn payouts_ok(groups: Seq<Group>, payouts: Seq<PayoutRecord>) -> bool {
    forall|i: int| 0 <= i < payouts.len() ==> payout_ok(groups, #[trigger] payouts[i])
}

/// No two payouts are of one cycle of one group.
pub open spec fn payouts_distinct(payouts: Seq<PayoutRecord>) -> bool {
    forall|i: int, j: int|
        #![trigger payouts[i], payouts[j]]
        0 <= i < j < payouts.len() ==> !payout_key(payouts[i], payouts[j].group_id, payouts[j].cycle)
}

/// Every cycle before `upto` of group `group_id` has been paid.
pub open spec fn paid_before(payouts: Seq<PayoutRecord>, group_id: u64, upto: int) -> bool {
    forall|cycle: u32| 1 <= cycle < upto ==> #[trigger] has_payout(payouts, group_id, cycle)
}

/// Every cycle that a group has left behind has been paid.
pub open spec fn payouts_cover(groups: Seq<Group>, payouts: Seq<PayoutRecord>) -> bool {
    forall|i: int| 0 <= i < groups.len() ==> paid_before(payouts, (i + 1) as u64, (#[trigger] groups[i]).current_cycle as int)
}

/// The penalty record carries the score of its counts and no negative sum,
/// belongs to a group among `groups`, and counts no more contributions than
/// the group has had cycles.
pub open spec fn penalty_record_ok(
    groups: Seq<Group>,
    contributions: Seq<ContributionRecord>,
    r: MemberPenaltyRecord,
) -> bool {
    &&& penalty_record_wf(r)
    &&& r.total_penalties >= 0
    &&& 1 <= r.group_id <= groups.len()
    &&& r.late_count + r.on_time_count + (if has_contributed(
        contributions,
        r.group_id,
        groups[r.group_id - 1].current_cycle,
        r.member,
    ) {
        0int
    } else {
        1int
    }) <= groups[r.group_id - 1].current_cycle
}

/// Every penalty record is in order.
pub open spec fn penalty_records_ok(
    groups: Seq<Group>,
    contributions: Seq<ContributionRecord>,
    records: Seq<MemberPenaltyRecord>,
) -> bool {
    forall|i: int| 0 <= i < records.len() ==> penalty_record_ok(groups, contributions, #[trigger] records[i])
}

/// No two penalty records are of one member in one group.
pub open spec fn penalty_records_distinct(records: Seq<MemberPenaltyRecord>) -> bool {
    forall|i: int, j: int|
        #![trigger records[i], records[j]]
        0 <= i < j < records.len() ==> !penalty_key(records[i], records[j].group_id, records[j].member)
}

/// The pool is not negative and is that of a cycle that a group among
/// `groups` has reached.
pub open spec fn pool_ok(groups: Seq<Group>, p: CyclePenaltyPool) -> bool {
    &&& p.amount >= 0
    &&& 1 <= p.group_id <= groups.len()
    &&& 1 <= p.cycle <= groups[p.group_id - 1].current_cycle
}

/// Every pool is in order.
pub open spec fn pools_ok(groups: Seq<Group>, pools: Seq<CyclePenaltyPool>) -> bool {
    forall|i: int| 0 <= i < pools.len() ==> pool_ok(groups, #[trigger] pools[i])
}

/// No two pools are of one cycle of one group.
pub open spec fn pools_distinct(pools: Seq<CyclePenaltyPool>) -> bool {
    forall|i: int, j: int|
        #![trigger pools[i], pools[j]]
        0 <= i < j < pools.len() ==> !pool_key(pools[i], pools[j].group_id, pools[j].cycle)
}

/// Returns `true` if every position of `members` holds an address and no
/// address stands in two positions.
pub fn members_are_distinct(members: &soroban_sdk::Vec<Address>) -> (ok: bool)
    ensures
        ok == (holds_addresses(*members) && addresses(*members).no_duplicates()),
{
    let n = slot_count(members);
    let mut i: u32 = 0;
    while i < n
        invariant
            i <= n,
            n == slots(*members).len(),
            forall|k: int| 0 <= k < i ==> (#[trigger] slots(*members)[k]) is Some,
            forall|k: int, l: int|
                0 <= k < i && k < l < n && (#[trigger] slots(*members)[l]) is Some ==> (
                #[trigger] slots(*members)[k]) != slots(*members)[l],
        decreases n - i,
    {
        let here = match slot_at(members, i) {
            Some(here) => here,
            None => {
                return false;
            },
        };
        let mut j: u32 = i + 1;
        while j < n
            invariant
                i < j <= n,
                n == slots(*members).len(),
                slots(*members)[i as int] == Some(here),
                forall|l: int|
                    i < l < j && (#[trigger] slots(*members)[l]) is Some ==> slots(*members)[l] != Some(
                        here,
                    ),
            decreases n - j,
        {
            if let Some(there) = slot_at(members, j) {
                if same_address(&here, &there) {
                    proof {
                        if holds_addresses(*members) {
                            assert(addresses(*members)[i as int] == addresses(*members)[j as int]);
                        }
                    }
                    return false;
                }
            }
            j += 1;
        }
        i += 1;
    }
    proof {
        assert(holds_addresses(*members));
        assert forall|k: int, l: int|
            0 <= k < addresses(*members).len() && 0 <= l < addresses(*members).len() && k
                != l implies addresses(*members)[k] != addresses(*members)[l] by {
            assert(slots(*members)[k] is Some);
            assert(slots(*members)[l] is Some);
            if k < l {
                assert(slots(*members)[k] != slots(*members)[l]);
            } else {
                assert(slots(*members)[l] != slots(*members)[k]);
            }
        }
    }
    true
}

/// Returns `true` if `group` is well formed.
pub fn group_is_wf(group: &Group) -> (ok: bool)
    ensures
        ok == group.wf(),
{
    if group.id == 0 || group.contribution_amount <= 0 || group.cycle_duration == 0 {
        return false;
    }
    if group.max_members < MIN_MEMBERS || group.max_members > MAX_MEMBERS_LIMIT {
        return false;
    }
    if group.grace_period > MAX_GRACE_PERIOD || group.penalty_rate > MAX_PENALTY_RATE {
        return false;
    }
    let n = slot_count(&group.members);
    if n == 0 || n > group.max_members {
        return false;
    }
    if !members_are_distinct(&group.members) {
        return false;
    }
    match slot_at(&group.members, 0) {
        Some(first) => {
            if !same_address(&first, &group.creator) {
                return false;
            }
        },
        None => {
            return false;
        },
    }
    if group.current_cycle == 0 {
        return false;
    }
    if group.payout_index != (group.current_cycle - 1) % n {
        return false;
    }
    group.is_complete == (group.current_cycle > n)
}

/// Returns `true` if every group is well formed and carries its position,
/// counted from 1, as its id.
pub fn groups_are_wf(groups: &Vec<Group>) -> (ok: bool)
    ensures
        ok == groups_ok(groups@),
{
    let mut i: usize = 0;
    while i < groups.len()
        invariant
            i <= groups.len(),
            forall|k: int| 0 <= k < i ==> (#[trigger] groups@[k]).wf() && groups@[k].id == k + 1,
        decreases groups.len() - i,
    {
        if !group_is_wf(&groups[i]) {
            return false;
        }
        if groups[i].id - 1 != i as u64 {
            return false;
        }
        i += 1;
    }
    true
}

/// Where group `group_id` stands among `groups`, if it is among them.
pub fn group_position(groups: &Vec<Group>, group_id: u64) -> (position: Option<usize>)
    ensures
        position is Some == (1 <= group_id <= groups@.len()),
        position matches Some(i) ==> i == group_id - 1,
{
    if group_id == 0 || group_id - 1 >= groups.len() as u64 {
        return None;
    }
    Some((group_id - 1) as usize)
}

/// Returns `true` if every contribution is one of an address held by a
/// group among `groups`, in a cycle that the group has reached.
pub fn contributions_are_in_range(groups: &Vec<Group>, contributions: &Vec<ContributionRecord>) -> (ok: bool)
    ensures
        ok == contributions_ok(groups@, contributions@),
{
    let mut i: usize = 0;
    while i < contributions.len()
        invariant
            i <= contributions.len(),
            forall|k: int| 0 <= k < i ==> contribution_ok(groups@, #[trigger] contributions@[k]),
        decreases contributions.len() - i,
    {
        let r = &contributions[i];
        let group = match group_position(groups, r.group_id) {
            Some(position) => &groups[position],
            None => {
                return false;
            },
        };
        if r.cycle == 0 || r.cycle > group.current_cycle || !is_member(&group.members, &r.member) {
            return false;
        }
        i += 1;
    }
    true
}

/// Returns `true` if no two contributions are of one member in one cycle
/// of one group.
pub fn contributions_are_distinct(contributions: &Vec<ContributionRecord>) -> (ok: bool)
    ensures
        ok == contributions_distinct(contributions@),
{
    let n = contributions.len();
    let mut j: usize = 0;
    while j < n
        invariant
            j <= n,
            n == contributions@.len(),
            forall|k: int, l: int|
                #![trigger contributions@[k], contributions@[l]]
                0 <= k < l < j ==> !contribution_key(
                    contributions@[k],
                    contributions@[l].group_id,
                    contributions@[l].cycle,
                    contributions@[l].member,
                ),
        decreases n - j,
    {
        let r = &contributions[j];
        let mut i: usize = 0;
        while i < j
            invariant
                i <= j < n,
                n == contributions@.len(),
                *r == contributions@[j as int],
                forall|k: int|
                    0 <= k < i ==> !contribution_key(#[trigger] contributions@[k], r.group_id, r.cycle, r.member),
            decreases j - i,
        {
            let earlier = &contributions[i];
            if earlier.group_id == r.group_id && earlier.cycle == r.cycle && same_address(
                &earlier.member,
                &r.member,
            ) {
                return false;
            }
            i += 1;
        }
        j += 1;
    }
    true
}

/// Returns `true` if every payout is one of a group among `groups`, for a
/// cycle that the group has left behind, to the address whose turn the
/// cycle was.
pub fn payouts_are_in_range(groups: &Vec<Group>, payouts: &Vec<PayoutRecord>) -> (ok: bool)
    ensures
        ok == payouts_ok(groups@, payouts@),
{
    let mut i: usize = 0;
    while i < payouts.len()
        invariant
            i <= payouts.len(),
            forall|k: int| 0 <= k < i ==> payout_ok(groups@, #[trigger] payouts@[k]),
        decreases payouts.len() - i,
    {
        let r = &payouts[i];
        let group = match group_position(groups, r.group_id) {
            Some(position) => &groups[position],
            None => {
                return false;
            },
        };
        if r.cycle == 0 || r.cycle >= group.current_cycle {
            return false;
        }
        let n = slot_count(&group.members);
        if n == 0 {
            return false;
        }
        match slot_at(&group.members, (r.cycle - 1) % n) {
            Some(turn) => {
                if !same_address(&turn, &r.member) {
                    return false;
                }
            },
            None => {
                return false;
            },
        }
        i += 1;
    }
    true
}

/// Returns `true` if no two payouts are of one cycle of one group.
pub fn payouts_are_distinct(payouts: &Vec<PayoutRecord>) -> (ok: bool)
    ensures
        ok == payouts_distinct(payouts@),
{
    let n = payouts.len();
    let mut j: usize = 0;
    while j < n
        invariant
            j <= n,
            n == payouts@.len(),
            forall|k: int, l: int|
                #![trigger payouts@[k], payouts@[l]]
                0 <= k < l < j ==> !payout_key(payouts@[k], payouts@[l].group_id, payouts@[l].cycle),
        decreases n - j,
    {
        let r = &payouts[j];
        let mut i: usize = 0;
        while i < j
            invariant
                i <= j < n,
                n == payouts@.len(),
                *r == payouts@[j as int],
                forall|k: int| 0 <= k < i ==> !payout_key(#[trigger] payouts@[k], r.group_id, r.cycle),
            decreases j - i,
        {
            if payouts[i].group_id == r.group_id && payouts[i].cycle == r.cycle {
                return false;
            }
            i += 1;
        }
        j += 1;
    }
    true
}

/// Returns `true` if every cycle that a group has left behind has been
/// paid.
pub fn payouts_cover_cycles(groups: &Vec<Group>, payouts: &Vec<PayoutRecord>) -> (ok: bool)
    ensures
        ok == payouts_cover(groups@, payouts@),
{
    let mut i: usize = 0;
    while i < groups.len()
        invariant
            i <= groups.len(),
            forall|k: int|
                0 <= k < i ==> paid_before(payouts@, (k + 1) as u64, (#[trigger] groups@[k]).current_cycle as int),
        decreases groups.len() - i,
    {
        let group_id: u64 = i as u64 + 1;
        let running = groups[i].current_cycle;
        let mut cycle: u32 = 1;
        while cycle < running
            invariant
                1 <= cycle,
                cycle <= running || running == 0,
                i < groups.len(),
                group_id == i + 1,
                running == groups@[i as int].current_cycle,
                paid_before(payouts@, group_id, cycle as int),
            decreases running - cycle,
        {
            if find_payout(payouts, group_id, cycle).is_none() {
                proof {
                    assert(!has_payout(payouts@, group_id, cycle));
                    assert(!paid_before(payouts@, (i + 1) as u64, groups@[i as int].current_cycle as int));
                }
                return false;
            }
            cycle += 1;
        }
        assert(paid_before(payouts@, (i + 1) as u64, groups@[i as int].current_cycle as int));
        i += 1;
    }
    true
}

/// Returns `true` if the score of `record` is the share of its
/// contributions made on time.
pub fn score_is_consistent(record: &MemberPenaltyRecord) -> (ok: bool)
    ensures
        ok == penalty_record_wf(*record),
{
    let total: u64 = record.on_time_count as u64 + record.late_count as u64;
    proof {
        lemma_reliability_range(record.on_time_count as int, record.late_count as int);
    }
    if total == 0 {
        record.reliability_score == 100
    } else {
        record.reliability_score as u64 == (record.on_time_count as u64 * 100) / total
    }
}

/// Returns `true` if every penalty record carries the score of its counts
/// and no negative sum, belongs to a group among `groups`, and counts no
/// more contributions than the group has had cycles.
pub fn penalty_records_are_in_range(
    groups: &Vec<Group>,
    contributions: &Vec<ContributionRecord>,
    records: &Vec<MemberPenaltyRecord>,
) -> (ok: bool)
    ensures
        ok == penalty_records_ok(groups@, contributions@, records@),
{
    let mut i: usize = 0;
    while i < records.len()
        invariant
            i <= records.len(),
            forall|k: int| 0 <= k < i ==> penalty_record_ok(groups@, contributions@, #[trigger] records@[k]),
        decreases records.len() - i,
    {
        let record = &records[i];
        if !score_is_consistent(record) || record.total_penalties < 0 {
            return false;
        }
        let cycle = match group_position(groups, record.group_id) {
            Some(position) => groups[position].current_cycle,
            None => {
                return false;
            },
        };
        let counted: u64 = record.late_count as u64 + record.on_time_count as u64;
        let open: u64 = if find_contribution(contributions, record.group_id, cycle, &record.member).is_some() {
            0
        } else {
            1
        };
        if counted + open > cycle as u64 {
            return false;
        }
        i += 1;
    }
    true
}

/// Returns `true` if no two penalty records are of one member in one
/// group.
pub fn penalty_records_are_distinct(records: &Vec<MemberPenaltyRecord>) -> (ok: bool)
    ensures
        ok == penalty_records_distinct(records@),
{
    let n = records.len();
    let mut j: usize = 0;
    while j < n
        invariant
            j <= n,
            n == records@.len(),
            forall|k: int, l: int|
                #![trigger records@[k], records@[l]]
                0 <= k < l < j ==> !penalty_key(records@[k], records@[l].group_id, records@[l].member),
        decreases n - j,
    {
        let r = &records[j];
        let mut i: usize = 0;
        while i < j
            invariant
                i <= j < n,
                n == records@.len(),
                *r == records@[j as int],
                forall|k: int| 0 <= k < i ==> !penalty_key(#[trigger] records@[k], r.group_id, r.member),
            decreases j - i,
        {
            if records[i].group_id == r.group_id && same_address(&records[i].member, &r.member) {
                return false;
            }
            i += 1;
        }
        j += 1;
    }
    true
}

/// Returns `true` if no pool is negative and every pool is that of a cycle
/// that a group among `groups` has reached.
pub fn pools_are_in_range(groups: &Vec<Group>, pools: &Vec<CyclePenaltyPool>) -> (ok: bool)
    ensures
        ok == pools_ok(groups@, pools@),
{
    let mut i: usize = 0;
    while i < pools.len()
        invariant
            i <= pools.len(),
            forall|k: int| 0 <= k < i ==> pool_ok(groups@, #[trigger] pools@[k]),
        decreases pools.len() - i,
    {
        let p = &pools[i];
        let running = match group_position(groups, p.group_id) {
            Some(position) => groups[position].current_cycle,
            None => {
                return false;
            },
        };
        if p.amount < 0 || p.cycle == 0 || p.cycle > running {
            return false;
        }
        i += 1;
    }
    true
}

/// Returns `true` if no two pools are of one cycle of one group.
pub fn pools_are_distinct(pools: &Vec<CyclePenaltyPool>) -> (ok: bool)
    ensures
        ok == pools_distinct(pools@),
{
    let n = pools.len();
    let mut j: usize = 0;
    while j < n
        invariant
            j <= n,
            n == pools@.len(),
            forall|k: int, l: int|
                #![trigger pools@[k], pools@[l]]
                0 <= k < l < j ==> !pool_key(pools@[k], pools@[l].group_id, pools@[l].cycle),
        decreases n - j,
    {
        let p = &pools[j];
        let mut i: usize = 0;
        while i < j
            invariant
                i <= j < n,
                n == pools@.len(),
                *p == pools@[j as int],
                forall|k: int| 0 <= k < i ==> !pool_key(#[trigger] pools@[k], p.group_id, p.cycle),
            decreases j - i,
        {
            if pools[i].group_id == p.group_id && pools[i].cycle == p.cycle {
                return false;
            }
            i += 1;
        }
        j += 1;
    }
    true
}

/// The tests of the parts, taken together, are the well-formedness of the
/// state that the parts make up.
pub proof fn lemma_parts_wf(
    config: Config,
    groups: Seq<Group>,
    contributions: Seq<ContributionRecord>,
    penalty_records: Seq<MemberPenaltyRecord>,
    penalty_pools: Seq<CyclePenaltyPool>,
    payouts: Seq<PayoutRecord>,
)
    ensures
        parts_wf(config, groups, contributions, penalty_records, penalty_pools, payouts) == ({
            &&& groups_ok(groups)
            &&& contributions_ok(groups, contributions)
            &&& contributions_distinct(contributions)
            &&& payouts_ok(groups, payouts)
            &&& payouts_distinct(payouts)
            &&& payouts_cover(groups, payouts)
            &&& penalty_records_ok(groups, contributions, penalty_records)
            &&& penalty_records_distinct(penalty_records)
            &&& pools_ok(groups, penalty_pools)
            &&& pools_distinct(penalty_pools)
        }),
{
    let s = state_of(config, groups, contributions, penalty_records, penalty_pools, payouts);
    let tested = {
        &&& groups_ok(groups)
        &&& contributions_ok(groups, contributions)
        &&& contributions_distinct(contributions)
        &&& payouts_ok(groups, payouts)
        &&& payouts_distinct(payouts)
        &&& payouts_cover(groups, payouts)
        &&& penalty_records_ok(groups, contributions, penalty_records)
        &&& penalty_records_distinct(penalty_records)
        &&& pools_ok(groups, penalty_pools)
        &&& pools_distinct(penalty_pools)
    };
    assert(s.groups.len() == groups.len());
    if tested {
        assert forall|i: int| 0 <= i < s.groups.len() implies (#[trigger] s.groups[i]).wf() && s.groups[i].id
            == i + 1 by {
            assert(groups[i].wf());
        }
        assert forall|i: int| 0 <= i < groups.len() implies holds_addresses((#[trigger] groups[i]).members) by {
            assert(groups[i].wf());
        }
        assert forall|i: int| 0 <= i < s.contributions.len() implies s.contribution_in_range(
            #[trigger] s.contributions[i],
        ) by {
            let r = contributions[i];
            assert(contribution_ok(groups, r));
            let g = groups[r.group_id - 1];
            assert(g.wf());
            lemma_membership(g.members, r.member);
        }
        assert forall|i: int| 0 <= i < s.payouts.len() implies s.payout_in_range(#[trigger] s.payouts[i]) by {
            let r = payouts[i];
            assert(payout_ok(groups, r));
            let g = groups[r.group_id - 1];
            assert(g.wf());
            let turn = (r.cycle - 1) % (slots(g.members).len() as int);
            assert(0 <= turn < slots(g.members).len()) by (nonlinear_arith)
                requires
                    turn == (r.cycle - 1) % (slots(g.members).len() as int),
                    r.cycle >= 1,
                    slots(g.members).len() > 0,
            ;
            assert(addresses(g.members)[turn] == slots(g.members)[turn].unwrap());
        }
        assert forall|group_id: u64, cycle: u32|
            s.group(group_id) is Some && 1 <= cycle < s.group(group_id)->0.current_cycle implies #[trigger] has_payout(
            s.payouts,
            group_id,
            cycle,
        ) by {
            let i = group_id - 1;
            assert(paid_before(payouts, (i + 1) as u64, groups[i].current_cycle as int));
        }
        assert forall|i: int| 0 <= i < s.penalty_records.len() implies s.penalty_record_in_range(
            #[trigger] s.penalty_records[i],
        ) by {
            assert(penalty_record_ok(groups, contributions, penalty_records[i]));
        }
        assert forall|i: int| 0 <= i < s.penalty_pools.len() implies s.pool_in_range(
            #[trigger] s.penalty_pools[i],
        ) by {
            assert(pool_ok(groups, penalty_pools[i]));
        }
        assert(parts_wf(config, groups, contributions, penalty_records, penalty_pools, payouts));
    }
    if parts_wf(config, groups, contributions, penalty_records, penalty_pools, payouts) {
        assert forall|i: int| 0 <= i < groups.len() implies (#[trigger] groups[i]).wf() && groups[i].id == i
            + 1 by {
            assert(s.groups[i].wf());
            assert(holds_addresses(groups[i].members));
        }
        assert forall|i: int| 0 <= i < contributions.len() implies contribution_ok(
            groups,
            #[trigger] contributions[i],
        ) by {
            let r = contributions[i];
            assert(s.contribution_in_range(s.contributions[i]));
            let g = groups[r.group_id - 1];
            assert(holds_addresses(g.members));
            lemma_membership(g.members, r.member);
        }
        assert forall|i: int| 0 <= i < payouts.len() implies payout_ok(groups, #[trigger] payouts[i]) by {
            let r = payouts[i];
            assert(s.payout_in_range(s.payouts[i]));
            let g = groups[r.group_id - 1];
            assert(holds_addresses(g.members));
            assert(s.groups[r.group_id - 1].wf());
            let turn = (r.cycle - 1) % (slots(g.members).len() as int);
            assert(0 <= turn < slots(g.members).len()) by (nonlinear_arith)
                requires
                    turn == (r.cycle - 1) % (slots(g.members).len() as int),
                    r.cycle >= 1,
                    slots(g.members).len() > 0,
            ;
            assert(slots(g.members)[turn] is Some);
            assert(addresses(g.members)[turn] == slots(g.members)[turn].unwrap());
        }
        assert forall|i: int| 0 <= i < groups.len() implies paid_before(
            payouts,
            (i + 1) as u64,
            (#[trigger] groups[i]).current_cycle as int,
        ) by {
            assert(s.groups[i].wf());
            let group_id = (i + 1) as u64;
            assert(s.group(group_id) is Some);
            assert forall|cycle: u32| 1 <= cycle < groups[i].current_cycle implies #[trigger] has_payout(
                payouts,
                group_id,
                cycle,
            ) by {
                assert(has_payout(s.payouts, group_id, cycle));
            }
        }
        assert forall|i: int| 0 <= i < penalty_records.len() implies penalty_record_ok(
            groups,
            contributions,
            #[trigger] penalty_records[i],
        ) by {
            assert(s.penalty_record_in_range(s.penalty_records[i]));
        }
        assert forall|i: int| 0 <= i < penalty_pools.len() implies pool_ok(
            groups,
            #[trigger] penalty_pools[i],
        ) by {
            assert(s.pool_in_range(s.penalty_pools[i]));
        }
        assert(tested);
    }
}

} // verus!
