//! The options a caller hands to the scan: how deep to recurse, whether to
//! fetch, and how the report should be rendered.

use vstd::prelude::*;

verus! {

/// How the report should use terminal colors.
#[derive(Debug, Default, Copy, Clone, PartialEq, Eq, Structural)]
pub enum ColorOptions {
    #[default]
    Auto,
    Always,
    Never,
}

/// The options for one scan.
#[derive(Debug, Clone)]
pub struct Args {
    /// Flag to not fetch git repos
    pub no_fetch: bool,
    /// Flag for verbose output
    pub verbose: bool,
    /// The limit for how deep to look for git repos
    pub recurse_limit: u32,
    /// How to output colors on the terminal
    pub color: ColorOptions,
    /// The path to the directory being checked
    pub path: String,
}

} // verus!
