//! The options of an invocation.

use vstd::prelude::*;

verus! {

/// The options of an invocation, as the command line gave them.
#[derive(Debug)]
pub struct Opts {
    /// The arguments that are neither of the two paths.
    pub args: Vec<String>,
    /// The path of the stored file, if one was given.
    pub config: Option<String>,
    /// The directory to act for, if one was given.
    pub pwd: Option<String>,
}

} // verus!
