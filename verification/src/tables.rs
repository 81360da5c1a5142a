//! The keyed tables of the contract: contributions, penalty records, penalty
//! pools and payouts. A table is a sequence of records; the record for a key
//! is the first one that carries it.

use crate::host::same_address;
use crate::types::{ContributionRecord, CyclePenaltyPool, MemberPenaltyRecord, PayoutRecord};
use soroban_sdk::Address;
use vstd::prelude::*;

verus! {

/// `r` is the contribution of `member` in `cycle` of group `group_id`.
pub open spec fn contribution_key(r: ContributionRecord, group_id: u64, cycle: u32, member: Address) -> bool {
    r.group_id == group_id && r.cycle == cycle && r.member == member
}

/// Position `i` holds the first record of the key.
pub open spec fn first_contribution_at(
    s: Seq<ContributionRecord>,
    group_id: u64,
    cycle: u32,
    member: Address,
    i: int,
) -> bool {
    &&& 0 <= i < s.len()
    &&& contribution_key(s[i], group_id, cycle, member)
    &&& forall|j: int| 0 <= j < i ==> !#[trigger] contribution_key(s[j], group_id, cycle, member)
}

/// `member` has contributed in `cycle` of group `group_id`.
pub open spec fn has_contributed(s: Seq<ContributionRecord>, group_id: u64, cycle: u32, member: Address) -> bool {
    exists|i: int| 0 <= i < s.len() && #[trigger] contribution_key(s[i], group_id, cycle, member)
}

/// The contribution of `member` in `cycle` of group `group_id`, if any.
pub open spec fn contribution_of(
    s: Seq<ContributionRecord>,
    group_id: u64,
    cycle: u32,
    member: Address,
) -> Option<ContributionRecord> {
    if has_contributed(s, group_id, cycle, member) {
        Some(s[choose|i: int| first_contribution_at(s, group_id, cycle, member, i)])
    } else {
        None
    }
}

/// `r` is the penalty record of `member` in group `group_id`.
pub open spec fn penalty_key(r: MemberPenaltyRecord, group_id: u64, member: Address) -> bool {
    r.group_id == group_id && r.member == member
}

/// Position `i` holds the first record of the key.
pub open spec fn first_penalty_record_at(
    s: Seq<MemberPenaltyRecord>,
    group_id: u64,
    member: Address,
    i: int,
) -> bool {
    &&& 0 <= i < s.len()
    &&& penalty_key(s[i], group_id, member)
    &&& forall|j: int| 0 <= j < i ==> !#[trigger] penalty_key(s[j], group_id, member)
}

/// `member` has a penalty record in group `group_id`.
pub open spec fn has_penalty_record(s: Seq<MemberPenaltyRecord>, group_id: u64, member: Address) -> bool {
    exists|i: int| 0 <= i < s.len() && #[trigger] penalty_key(s[i], group_id, member)
}

/// Where the penalty record of `member` in group `group_id` stands.
pub open spec fn penalty_record_index(s: Seq<MemberPenaltyRecord>, group_id: u64, member: Address) -> int {
    choose|i: int| first_penalty_record_at(s, group_id, member, i)
}

/// The record of a member who has not contributed yet.
pub open spec fn fresh_penalty_record(group_id: u64, member: Address) -> MemberPenaltyRecord {
    MemberPenaltyRecord {
        member,
        group_id,
        late_count: 0,
        on_time_count: 0,
        total_penalties: 0,
        reliability_score: 100,
    }
}

/// The penalty record of `member` in group `group_id`; the fresh record
/// where none is kept yet.
pub open spec fn penalty_record_of(s: Seq<MemberPenaltyRecord>, group_id: u64, member: Address) -> MemberPenaltyRecord {
    if has_penalty_record(s, group_id, member) {
        s[penalty_record_index(s, group_id, member)]
    } else {
        fresh_penalty_record(group_id, member)
    }
}

/// `p` is the penalty pool of `cycle` of group `group_id`.
pub open spec fn pool_key(p: CyclePenaltyPool, group_id: u64, cycle: u32) -> bool {
    p.group_id == group_id && p.cycle == cycle
}

/// Position `i` holds the first pool of the key.
pub open spec fn first_pool_at(s: Seq<CyclePenaltyPool>, group_id: u64, cycle: u32, i: int) -> bool {
    &&& 0 <= i < s.len()
    &&& pool_key(s[i], group_id, cycle)
    &&& forall|j: int| 0 <= j < i ==> !#[trigger] pool_key(s[j], group_id, cycle)
}

/// A pool is kept for `cycle` of group `group_id`.
pub open spec fn has_pool(s: Seq<CyclePenaltyPool>, group_id: u64, cycle: u32) -> bool {
    exists|i: int| 0 <= i < s.len() && #[trigger] pool_key(s[i], group_id, cycle)
}

/// Where the pool of `cycle` of group `group_id` stands.
pub open spec fn pool_index(s: Seq<CyclePenaltyPool>, group_id: u64, cycle: u32) -> int {
    choose|i: int| first_pool_at(s, group_id, cycle, i)
}

/// The penalties collected in `cycle` of group `group_id`; 0 where none
/// were.
pub open spec fn pool_of(s: Seq<CyclePenaltyPool>, group_id: u64, cycle: u32) -> i128 {
    if has_pool(s, group_id, cycle) {
        s[pool_index(s, group_id, cycle)].amount
    } else {
        0
    }
}

/// The pools after `penalty` was added to the pool of `cycle` of group
/// `group_id`.
pub open spec fn pool_credited(s: Seq<CyclePenaltyPool>, group_id: u64, cycle: u32, penalty: i128) -> Seq<
    CyclePenaltyPool,
> {
    let amount = (pool_of(s, group_id, cycle) + penalty) as i128;
    let pool = CyclePenaltyPool { group_id, cycle, amount };
    if has_pool(s, group_id, cycle) {
        s.update(pool_index(s, group_id, cycle), pool)
    } else {
        s.push(pool)
    }
}

/// `r` is the payout of `cycle` of group `group_id`.
pub open spec fn payout_key(r: PayoutRecord, group_id: u64, cycle: u32) -> bool {
    r.group_id == group_id && r.cycle == cycle
}

/// Position `i` holds the first payout of the key.
pub open spec fn first_payout_at(s: Seq<PayoutRecord>, group_id: u64, cycle: u32, i: int) -> bool {
    &&& 0 <= i < s.len()
    &&& payout_key(s[i], group_id, cycle)
    &&& forall|j: int| 0 <= j < i ==> !#[trigger] payout_key(s[j], group_id, cycle)
}

/// The payout of `cycle` of group `group_id` was made.
pub open spec fn has_payout(s: Seq<PayoutRecord>, group_id: u64, cycle: u32) -> bool {
    exists|i: int| 0 <= i < s.len() && #[trigger] payout_key(s[i], group_id, cycle)
}

/// The payout of `cycle` of group `group_id`, if it was made.
pub open spec fn payout_of(s: Seq<PayoutRecord>, group_id: u64, cycle: u32) -> Option<PayoutRecord> {
    if has_payout(s, group_id, cycle) {
        Some(s[choose|i: int| first_payout_at(s, group_id, cycle, i)])
    } else {
        None
    }
}

/// Where a record of the key stands, a first one does.
pub proof fn lemma_first_contribution(
    s: Seq<ContributionRecord>,
    group_id: u64,
    cycle: u32,
    member: Address,
    i: int,
)
    requires
        0 <= i < s.len(),
        contribution_key(s[i], group_id, cycle, member),
    ensures
        has_contributed(s, group_id, cycle, member),
        first_contribution_at(
            s,
            group_id,
            cycle,
            member,
            choose|k: int| first_contribution_at(s, group_id, cycle, member, k),
        ),
    decreases i,
{
    if exists|j: int| 0 <= j < i && contribution_key(s[j], group_id, cycle, member) {
        let j = choose|j: int| 0 <= j < i && contribution_key(s[j], group_id, cycle, member);
        lemma_first_contribution(s, group_id, cycle, member, j);
    } else {
        assert(first_contribution_at(s, group_id, cycle, member, i));
    }
}

/// Where a record of the key stands, a first one does.
pub proof fn lemma_first_penalty_record(s: Seq<MemberPenaltyRecord>, group_id: u64, member: Address, i: int)
    requires
        0 <= i < s.len(),
        penalty_key(s[i], group_id, member),
    ensures
        has_penalty_record(s, group_id, member),
        first_penalty_record_at(s, group_id, member, penalty_record_index(s, group_id, member)),
    decreases i,
{
    if exists|j: int| 0 <= j < i && penalty_key(s[j], group_id, member) {
        let j = choose|j: int| 0 <= j < i && penalty_key(s[j], group_id, member);
        lemma_first_penalty_record(s, group_id, member, j);
    } else {
        assert(first_penalty_record_at(s, group_id, member, i));
    }
}

/// Where a pool of the key stands, a first one does.
pub proof fn lemma_first_pool(s: Seq<CyclePenaltyPool>, group_id: u64, cycle: u32, i: int)
    requires
        0 <= i < s.len(),
        pool_key(s[i], group_id, cycle),
    ensures
        has_pool(s, group_id, cycle),
        first_pool_at(s, group_id, cycle, pool_index(s, group_id, cycle)),
    decreases i,
{
    if exists|j: int| 0 <= j < i && pool_key(s[j], group_id, cycle) {
        let j = choose|j: int| 0 <= j < i && pool_key(s[j], group_id, cycle);
        lemma_first_pool(s, group_id, cycle, j);
    } else {
        assert(first_pool_at(s, group_id, cycle, i));
    }
}

/// Where a payout of the key stands, a first one does.
pub proof fn lemma_first_payout(s: Seq<PayoutRecord>, group_id: u64, cycle: u32, i: int)
    requires
        0 <= i < s.len(),
        payout_key(s[i], group_id, cycle),
    ensures
        has_payout(s, group_id, cycle),
        first_payout_at(s, group_id, cycle, choose|k: int| first_payout_at(s, group_id, cycle, k)),
    decreases i,
{
    if exists|j: int| 0 <= j < i && payout_key(s[j], group_id, cycle) {
        let j = choose|j: int| 0 <= j < i && payout_key(s[j], group_id, cycle);
        lemma_first_payout(s, group_id, cycle, j);
    } else {
        assert(first_payout_at(s, group_id, cycle, i));
    }
}

/// Finds the first contribution of the key.
pub fn find_contribution(
    table: &Vec<ContributionRecord>,
    group_id: u64,
    cycle: u32,
    member: &Address,
) -> (found: Option<usize>)
    ensures
        found is Some == has_contributed(table@, group_id, cycle, *member),
        found matches Some(i) ==> first_contribution_at(table@, group_id, cycle, *member, i as int),
        found matches Some(i) ==> contribution_of(table@, group_id, cycle, *member) == Some(table@[i as int]),
{
    let mut i: usize = 0;
    while i < table.len()
        invariant
            i <= table.len(),
            forall|j: int| 0 <= j < i ==> !#[trigger] contribution_key(table@[j], group_id, cycle, *member),
        decreases table.len() - i,
    {
        let r = &table[i];
        if r.group_id == group_id && r.cycle == cycle && same_address(&r.member, member) {
            assert(first_contribution_at(table@, group_id, cycle, *member, i as int));
            return Some(i);
        }
        i += 1;
    }
    None
}

/// Finds the first penalty record of the key.
pub fn find_penalty_record(table: &Vec<MemberPenaltyRecord>, group_id: u64, member: &Address) -> (found: Option<
    usize,
>)
    ensures
        found is Some == has_penalty_record(table@, group_id, *member),
        found matches Some(i) ==> first_penalty_record_at(table@, group_id, *member, i as int),
        found matches Some(i) ==> penalty_record_index(table@, group_id, *member) == i,
{
    let mut i: usize = 0;
    while i < table.len()
        invariant
            i <= table.len(),
            forall|j: int| 0 <= j < i ==> !#[trigger] penalty_key(table@[j], group_id, *member),
        decreases table.len() - i,
    {
        let r = &table[i];
        if r.group_id == group_id && same_address(&r.member, member) {
            assert(first_penalty_record_at(table@, group_id, *member, i as int));
            return Some(i);
        }
        i += 1;
    }
    None
}

/// Finds the first pool of the key.
pub fn find_pool(table: &Vec<CyclePenaltyPool>, group_id: u64, cycle: u32) -> (found: Option<usize>)
    ensures
        found is Some == has_pool(table@, group_id, cycle),
        found matches Some(i) ==> first_pool_at(table@, group_id, cycle, i as int),
        found matches Some(i) ==> pool_index(table@, group_id, cycle) == i,
{
    let mut i: usize = 0;
    while i < table.len()
        invariant
            i <= table.len(),
            forall|j: int| 0 <= j < i ==> !#[trigger] pool_key(table@[j], group_id, cycle),
        decreases table.len() - i,
    {
        let p = &table[i];
        if p.group_id == group_id && p.cycle == cycle {
            assert(first_pool_at(table@, group_id, cycle, i as int));
            return Some(i);
        }
        i += 1;
    }
    None
}

/// The penalties collected in `cycle` of group `group_id`; 0 where none
/// were.
pub fn penalty_pool(pools: &Vec<CyclePenaltyPool>, group_id: u64, cycle: u32) -> (amount: i128)
    ensures
        amount == pool_of(pools@, group_id, cycle),
{
    match find_pool(pools, group_id, cycle) {
        Some(i) => pools[i].amount,
        None => 0,
    }
}

/// Adds `penalty` to the pool of `cycle` of group `group_id`, which is
/// opened where the cycle has none yet.
pub fn credit_penalty_pool(pools: &mut Vec<CyclePenaltyPool>, group_id: u64, cycle: u32, penalty: i128)
    requires
        i128::MIN <= pool_of(old(pools)@, group_id, cycle) + penalty <= i128::MAX,
    ensures
        final(pools)@ == pool_credited(old(pools)@, group_id, cycle, penalty),
        pool_of(final(pools)@, group_id, cycle) == pool_of(old(pools)@, group_id, cycle) + penalty,
{
    match find_pool(pools, group_id, cycle) {
        Some(i) => {
            let pool = CyclePenaltyPool { group_id, cycle, amount: pools[i].amount + penalty };
            pools.set(i, pool);
            proof {
                lemma_pool_found(final(pools)@, group_id, cycle, i as int);
            }
        },
        None => {
            let pool = CyclePenaltyPool { group_id, cycle, amount: penalty };
            pools.push(pool);
            proof {
                lemma_pool_found(final(pools)@, group_id, cycle, old(pools)@.len() as int);
            }
        },
    }
}

/// The first pool of a key is the pool of that key.
pub proof fn lemma_pool_found(s: Seq<CyclePenaltyPool>, group_id: u64, cycle: u32, i: int)
    requires
        0 <= i < s.len(),
        pool_key(s[i], group_id, cycle),
        forall|j: int| 0 <= j < i ==> !#[trigger] pool_key(s[j], group_id, cycle),
    ensures
        has_pool(s, group_id, cycle),
        pool_index(s, group_id, cycle) == i,
        pool_of(s, group_id, cycle) == s[i].amount,
{
    assert(first_pool_at(s, group_id, cycle, i));
    let k = pool_index(s, group_id, cycle);
    assert(first_pool_at(s, group_id, cycle, k));
}

/// Finds the first payout of the key.
pub fn find_payout(table: &Vec<PayoutRecord>, group_id: u64, cycle: u32) -> (found: Option<usize>)
    ensures
        found is Some == has_payout(table@, group_id, cycle),
        found matches Some(i) ==> first_payout_at(table@, group_id, cycle, i as int),
        found matches Some(i) ==> payout_of(table@, group_id, cycle) == Some(table@[i as int]),
{
    let mut i: usize = 0;
    while i < table.len()
        invariant
            i <= table.len(),
            forall|j: int| 0 <= j < i ==> !#[trigger] payout_key(table@[j], group_id, cycle),
        decreases table.len() - i,
    {
        let r = &table[i];
        if r.group_id == group_id && r.cycle == cycle {
            assert(first_payout_at(table@, group_id, cycle, i as int));
            return Some(i);
        }
        i += 1;
    }
    None
}

} // verus!
