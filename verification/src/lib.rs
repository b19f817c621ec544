//! The library of a build helper for Android projects built with Bazel and Gradle:
//! it reads the modules, `ext` variables and dependencies out of Gradle scripts,
//! gathers the permissions of module manifests and merges them into the main
//! manifest, and shapes the build timings that the tool reports.

pub mod cli;
pub mod gradle;
pub mod manifest;
pub mod path;
pub mod pattern;
pub mod text;
pub mod walk;

use vstd::prelude::*;

verus! {

/// Placeholder hook of the hosting module; it does nothing.
pub fn add_to_waitlist() {
}

} // verus!
