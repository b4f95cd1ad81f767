//! The client side of the scheme: key derivation and record sealing, the
//! whole-file framing, link parsing, and what the command line and the
//! browser decide on top of them.
pub mod crypto;
pub mod transfer;
pub mod api;
pub mod commands;
pub mod i18n;
