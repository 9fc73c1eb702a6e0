//! A small in-memory bookkeeping ledger: named, PIN-protected accounts whose
//! balances are kept in one canonical unit, together with an exact-rational
//! currency model that normalizes amounts given in any currency.

pub mod bank;
pub mod currency;
