//! The boundary to the Soroban host.
//!
//! Addresses, host vectors and the ledger clock live in the host environment.
//! Nothing in this module is proved: each item states what the SDK documents
//! of one of its functions, and the rest of the crate is verified against
//! these statements. All of them speak of values of one environment, the one
//! the running contract was handed. The host meters every call; an invocation
//! that runs out of budget is aborted by the host, as a process that runs out
//! of memory is.

use vstd::prelude::*;

verus! {

/// `soroban_sdk::Address`: an opaque identifier of an account or a contract.
#[verifier::external_type_specification]
#[verifier::external_body]
pub struct ExAddress(soroban_sdk::Address);

/// `soroban_sdk::Env`: the handle to the host environment.
#[verifier::external_type_specification]
#[verifier::external_body]
pub struct ExEnv(soroban_sdk::Env);

/// `soroban_sdk::Vec`: a growable sequence that the host stores.
#[verifier::external_type_specification]
#[verifier::external_body]
#[verifier::reject_recursive_types(T)]
pub struct ExHostVec<T>(soroban_sdk::Vec<T>);

/// What a host vector of addresses holds, position by position: the address
/// stored there, or `None` where the stored value is not an address (the SDK
/// does not promise that every value of a `Vec<T>` converts to `T`).
pub uninterp spec fn slots(v: soroban_sdk::Vec<soroban_sdk::Address>) -> Seq<Option<soroban_sdk::Address>>;

/// `Clone::clone` of `soroban_sdk::Address`: the copy names the same account
/// or contract.
pub assume_specification[ <soroban_sdk::Address as Clone>::clone ](a: &soroban_sdk::Address) -> (copy:
    soroban_sdk::Address)
    ensures
        copy == *a,
;

/// `Clone::clone` of `soroban_sdk::Vec`: the copy refers to the same stored
/// sequence.
pub assume_specification<T>[ <soroban_sdk::Vec<T> as Clone>::clone ](v: &soroban_sdk::Vec<T>) -> (copy:
    soroban_sdk::Vec<T>)
    ensures
        copy == *v,
;

/// `PartialEq::eq` of `soroban_sdk::Address`: two addresses compare equal
/// exactly when they are the same address.
#[verifier::external_body]
pub(crate) fn same_address(a: &soroban_sdk::Address, b: &soroban_sdk::Address) -> (same: bool)
    ensures
        same == (*a == *b),
{
    a == b
}

/// `Vec::new`: an empty host vector.
#[verifier::external_body]
pub(crate) fn empty_members(env: &soroban_sdk::Env) -> (members: soroban_sdk::Vec<
    soroban_sdk::Address,
>)
    ensures
        slots(members) == Seq::<Option<soroban_sdk::Address>>::empty(),
{
    soroban_sdk::Vec::new(env)
}

/// `Vec::len`: the number of positions.
#[verifier::external_body]
pub(crate) fn slot_count(members: &soroban_sdk::Vec<soroban_sdk::Address>) -> (n: u32)
    ensures
        n == slots(*members).len(),
{
    members.len()
}

/// `Vec::try_get`: the address at position `i`; `None` past the end and where
/// the stored value is not an address.
#[verifier::external_body]
pub(crate) fn slot_at(members: &soroban_sdk::Vec<soroban_sdk::Address>, i: u32) -> (slot: Option<
    soroban_sdk::Address,
>)
    ensures
        slot == if i < slots(*members).len() {
            slots(*members)[i as int]
        } else {
            None
        },
{
    match members.try_get(i) {
        Ok(found) => found,
        Err(_) => None,
    }
}

/// `Vec::push_back`: the address is put behind the last position. The host
/// refuses a vector of more than `u32::MAX` positions.
#[verifier::external_body]
pub(crate) fn push_member(members: &mut soroban_sdk::Vec<soroban_sdk::Address>, member: soroban_sdk::Address)
    requires
        slots(*old(members)).len() < u32::MAX,
    ensures
        slots(*final(members)) == slots(*old(members)).push(Some(member)),
{
    members.push_back(member)
}

/// `Ledger::timestamp` of `Env::ledger`: the close time of the current
/// ledger, in seconds since the Unix epoch. Nothing is promised of the value.
#[verifier::external_body]
pub fn get_current_timestamp(env: &soroban_sdk::Env) -> (now: u64) {
    env.ledger().timestamp()
}

} // verus!
