use vstd::prelude::*;

pub mod blob;
pub mod config;
pub mod data;
pub mod github;
pub mod issues;
pub mod server;
pub mod text;

verus! {

/// The single error kind of this crate: a human-readable description of what went wrong.
#[derive(Clone, Debug)]
pub struct WorkErr(pub String);

} // verus!
