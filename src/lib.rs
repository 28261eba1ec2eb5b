//! Bookkeeping and ledger-membership validation for organizations of a
//! shielded-transaction ledger, with address derivation from secrets.

pub mod text;
pub mod field;
pub mod address;
pub mod org;
