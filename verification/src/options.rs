//! The configuration of a run.

use vstd::prelude::*;

verus! {

/// What the operator asks for.
pub struct Options {
    /// The language to search for.
    pub language: String,
    /// The base directory under which repositories are cloned.
    pub output: String,
    /// The licenses to look for, in the order given.
    pub license: Vec<String>,
    /// List the URLs only: nothing is created on disk, nothing is cloned.
    pub no_download: bool,
    /// The greatest number of URLs to harvest.
    pub limit: usize,
    /// How many clones may run side by side.
    pub threads: usize,
    /// Whether progress is reported.
    pub verbose: bool,
}

} // verus!
