//! Authentication core of a declarative JSON-API client.
//!
//! The heart of the crate is the OAuth2 authorization-code flow with a
//! proof key (PKCE), its single-use loopback redirect, and the persistent
//! token cache that makes repeated runs authentication-free.
//!
//! Every decision is made here, under contract: the token table and its
//! file format ([`store`], [`codec`]), the typed configuration
//! ([`config`]), the proof key ([`pkce`]), the authorization URL and the
//! callback request line ([`flow`], [`url`]), the token-endpoint response
//! ([`json`]), and the cache-first orchestration ([`auth`]). The caller
//! performs the outside work each flow state asks for — printing and
//! opening the URL, accepting the one loopback connection, posting the
//! exchange request, reading and writing the cache file — and hands the
//! outcomes back in.

use vstd::prelude::*;

pub mod api;
pub mod auth;
pub mod b64;
pub mod codec;
pub mod config;
pub mod errors;
pub mod flow;
pub mod json;
pub mod kv;
pub mod pct;
pub mod pkce;
pub mod store;
pub mod strings;
pub mod url;

pub use errors::AuthError;

verus! {

} // verus!
