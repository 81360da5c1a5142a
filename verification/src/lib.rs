//! Rules of a rotating savings group on Soroban, verified with Verus.
//!
//! A fixed amount is paid by every member in every cycle, and the members
//! take turns in receiving what was paid. The crate decides what each
//! operation answers and what it leaves behind; moving tokens, asking for
//! authorization and storing the state are left to the caller.
//!
//! - [`model`] is the contract as a state machine over mathematical values.
//! - [`contract`] is the executable contract, held to the model.
//! - [`preservation`] and [`theorems`] prove what holds of the model in
//!   every state.
//! - [`utils`], [`pausable`] and [`tables`] are the rules on single records.
//! - [`integrity`] tests state that comes from outside verified code.
//! - [`host`] states what is taken on trust of the Soroban SDK.

pub mod contract;
pub mod errors;
pub mod host;
pub mod integrity;
pub mod model;
pub mod pausable;
pub mod preservation;
pub mod tables;
pub mod theorems;
pub mod types;
pub mod utils;
