//! `senders`: end-to-end encrypted file sharing, as a verified library.
pub mod text;
pub mod wire;
pub mod header;
pub mod stream;
pub mod primitives;
pub mod b64;
pub mod link;
pub mod passphrase;
pub mod server;
pub mod client;
