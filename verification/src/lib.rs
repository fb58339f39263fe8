//! A verified core for a game-mod update pipeline.
//!
//! The library keeps a local registry of installed package versions in
//! sync with a remote catalog: it diffs registry against catalog,
//! accumulates streamed download bytes while computing a digest, plans
//! the extraction of a zip archive with layout normalization and path
//! containment, and does the registry bookkeeping.  All I/O (HTTP,
//! filesystem, event emission) stays outside the library; callers hand
//! in plain values and get plain values back.

pub mod ambient;
pub mod catalog;
pub mod codec;
pub mod diff;
pub mod download;
pub mod install;
pub mod launch;
pub mod mods;
pub mod presets;
pub mod progress;
pub mod registry;
pub mod strings;
pub mod updater;

use vstd::prelude::*;

verus! {

/// Updates go by exact string inequality: there is no semantic-version
/// ordering in this design.
pub fn versions_differ(a: &String, b: &String) -> (r: bool)
    ensures
        r == (a@ != b@),
{
    !a.eq(b)
}

} // verus!
