//! Domain layer of a shared-expense tracker.
//!
//! Users form groups, log payments with per-member credit and debit shares,
//! and the library computes the minimal set of transfers that settles every
//! participant's balance. Every operation is mediated by an authorization
//! guard over group membership and self-ownership, and the persistence
//! gateway is modelled as an in-memory document store whose operations may
//! fail on demand, standing for infrastructure faults.

pub mod entities;
pub mod laws;
pub mod repositories;
pub mod usecases;
