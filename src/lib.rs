//! A two-party asset-swap escrow over an in-memory ledger of token holdings.
//!
//! A maker locks a deposit of one asset in a vault controlled by a keyless,
//! program-derived address; a taker settles by paying the requested amount of
//! a second asset, or the maker cancels and takes the deposit back.

pub mod address;
pub mod ledger;
pub mod escrow;
pub mod laws;
