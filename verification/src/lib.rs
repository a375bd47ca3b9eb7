//! The rules of a workspace-scoped execution server.
use vstd::prelude::*;

pub mod diagnostics;
pub mod environment;
pub mod execution;
pub mod limits;
pub mod makefile;
pub mod manifest;
pub mod names;
pub mod output;
pub mod paths;
pub mod plan;
pub mod project;
pub mod quality;
pub mod render;
pub mod resolved;
pub mod server;
pub mod text;

verus! {

} // verus!
