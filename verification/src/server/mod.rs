//! The server's logic: storage rules, authentication, request validation and
//! the rendering of its page and policies. The HTTP plumbing lives around it.
pub mod util;
pub mod meta;
pub mod error;
pub mod config;
pub mod auth;
pub mod api;
pub mod page;
pub mod oidc;
pub mod blob;
