//! Tools that watch a build's event stream, diagnose missing JVM
//! dependencies from compiler diagnostics, and plan edits to the build
//! configuration that add the missing targets.

use vstd::prelude::*;

pub mod build_events;
pub mod error_extraction;
pub mod guesses;
pub mod index_table;
pub mod indexer;
pub mod patterns;
pub mod pipeline;
pub mod planner;
pub mod resolver;
pub mod runner;
pub mod sanitization;
pub mod source_dependencies;
pub mod text;

verus! {

/// Whether `needle` occurs in `hay` starting at index `at`.
pub open spec fn occurs_at(hay: Seq<char>, needle: Seq<char>, at: int) -> bool {
    &&& 0 <= at
    &&& at + needle.len() <= hay.len()
    &&& hay.subrange(at, at + needle.len()) == needle
}

} // verus!
