//! Accounts, transactions and messages.
//!
//! Savings groups are a native account type, because that is how a very large
//! share of the continent actually saves. Fees are payable in any whitelisted
//! denomination and may be sponsored by a third party, so nobody has to acquire
//! the native coin before they can send money.

pub mod account;
pub mod group;
pub mod rules;
pub mod tx;
