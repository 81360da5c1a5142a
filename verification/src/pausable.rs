//! The administrative pause switch.

use crate::errors::AjoError;
use crate::host::same_address;
use soroban_sdk::Address;
use vstd::prelude::*;

verus! {

/// The configuration of the contract as a whole: who administers it and
/// whether it is paused.
#[derive(Clone, Debug, PartialEq, Eq)]
pub struct Config {
    /// The administrator; `None` until one is set.
    pub admin: Option<Address>,
    /// While set, no operation that changes groups, contributions or
    /// payouts is taken.
    pub paused: bool,
}

impl Config {
    /// `caller` is the administrator.
    pub open spec fn is_admin(self, caller: Address) -> bool {
        self.admin == Some(caller)
    }
}

/// Returns `true` if the contract is paused.
pub fn is_paused(config: &Config) -> (paused: bool)
    ensures
        paused == config.paused,
{
    config.paused
}

/// Refuses with `ContractPaused` while the contract is paused.
pub fn ensure_not_paused(config: &Config) -> (verdict: Result<(), AjoError>)
    ensures
        verdict == if config.paused {
            Err::<(), AjoError>(AjoError::ContractPaused)
        } else {
            Ok::<(), AjoError>(())
        },
{
    if is_paused(config) {
        Err(AjoError::ContractPaused)
    } else {
        Ok(())
    }
}

/// Returns `true` if `caller` is the administrator of `config`.
pub fn is_admin(config: &Config, caller: &Address) -> (admin: bool)
    ensures
        admin == config.is_admin(*caller),
{
    match &config.admin {
        Some(admin) => same_address(admin, caller),
        None => false,
    }
}

/// Pauses the contract. Only the administrator may; pausing a paused
/// contract succeeds and changes nothing.
pub fn pause(config: &mut Config, caller: &Address) -> (verdict: Result<(), AjoError>)
    ensures
        verdict == if old(config).is_admin(*caller) {
            Ok::<(), AjoError>(())
        } else {
            Err::<(), AjoError>(AjoError::UnauthorizedPause)
        },
        final(config).admin == old(config).admin,
        final(config).paused == (old(config).paused || old(config).is_admin(*caller)),
{
    if !is_admin(config, caller) {
        return Err(AjoError::UnauthorizedPause);
    }
    config.paused = true;
    Ok(())
}

/// Lifts the pause. Only the administrator may; unpausing a contract that
/// is not paused succeeds and changes nothing.
pub fn unpause(config: &mut Config, caller: &Address) -> (verdict: Result<(), AjoError>)
    ensures
        verdict == if old(config).is_admin(*caller) {
            Ok::<(), AjoError>(())
        } else {
            Err::<(), AjoError>(AjoError::UnauthorizedUnpause)
        },
        final(config).admin == old(config).admin,
        final(config).paused == (old(config).paused && !old(config).is_admin(*caller)),
{
    if !is_admin(config, caller) {
        return Err(AjoError::UnauthorizedUnpause);
    }
    config.paused = false;
    Ok(())
}

} // verus!
