//! A single shared roulette table: bettors place stakes on named outcome
//! categories while the betting window is open, a result is drawn once, and
//! winners claim payouts from a fixed odds table.
//!
//! The custody of funds, the entropy source and the identity of bettors are
//! collaborators of the host program; this crate holds the table state
//! machine, the outcome classification and the payout arithmetic.

pub mod category;
pub mod codec;
pub mod outcome;
pub mod table;
