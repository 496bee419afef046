//! A fund-custody ledger: one authority creates a named fundraising campaign
//! at an address derived from its identity, arbitrary donors deposit value,
//! and the authority withdraws accumulated value and finally closes the
//! campaign, sweeping the residual balance back to itself.
//!
//! The campaign state machine, its balance arithmetic and its authority
//! checks are verified; the account store that holds the accounts is an
//! in-memory table inside [`ledger::Ledger`], so the whole engine is checked
//! end to end.

pub mod campaign;
pub mod errors;
pub mod laws;
pub mod ledger;
