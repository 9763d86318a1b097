//! The query protocol: how an untrusted server answers a wallet.
//!
//! An answer carries what is needed to check it ([`query`]). A node answers from its own
//! view of the chain ([`server`]), and a wallet walks an account's transactions back to
//! the first one by the links that blocks commit to ([`history`]).

pub mod history;
pub mod query;
pub mod rules;
pub mod server;
