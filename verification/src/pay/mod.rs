//! The developer-facing payment surface.
//!
//! [`request`] holds the `afri:` URI scheme: one string a merchant emits into a
//! link or a QR code, that any wallet understands. [`reference`] holds the
//! machine-readable tag an exchange or a merchant reconciles against. [`query`] holds
//! what the parameters of a request mean, in whatever order they come.
//!
//! A payment request is untrusted input: a request, never an instruction. A
//! wallet resolves the payee and shows who is about to be paid before it signs.

pub mod query;
pub mod reference;
pub mod request;
