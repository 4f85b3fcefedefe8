//! Core of an in-process introspection and automation server.
//!
//! An external controller observes and drives a running interactive
//! application through a line-delimited JSON request/response protocol.
//! This crate holds the verified logic of that server: the bounded log
//! buffer, the request router and method handlers, and the element tree
//! builder that reconstructs a UI hierarchy from flat inspector records.
//! The unverified rim (socket listener, connection threads, JSON wire
//! codec, and the UI host itself) lives outside and hands this crate
//! plain values.

pub mod handlers;
pub mod logbuf;
pub mod protocol;
pub mod text;
pub mod tree;

use vstd::prelude::*;

verus! {

/// JSON values cross this crate as opaque payloads: geometry, parameter
/// objects and property maps are produced and consumed by the unverified
/// rim, and the verified logic only carries them through unchanged.
#[verifier::external_type_specification]
#[verifier::external_body]
pub struct ExJsonValue(serde_json::Value);

} // verus!
