//! Decision logic for migrating one chat account's room memberships, and the
//! administrative privilege that goes with them, to another account.
//!
//! The crate holds no network code. Every function maps observations of the
//! two accounts to the next thing that should be done, so that a driver can
//! perform the calls and hand the outcomes back.

pub mod convergence;
pub mod filter;
pub mod invite;
pub mod leave;
pub mod login;
pub mod orchestrator;
pub mod privilege;
pub mod reconcile;
pub mod room;
pub mod snapshot;
pub mod throttle;
