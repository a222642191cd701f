//! The command line's settings.
use vstd::prelude::*;
use crate::output::OutputKind;
use crate::source::Source;

verus! {

/// The settings of one run, as the command line gives them.
#[derive(Clone, Debug)]
pub struct Args {
    /// Print progress information.
    pub verbose: bool,
    /// Where the usernames come from.
    pub source: Source,
    /// Directory the output file is written into.
    pub output: String,
    /// Format of the output file.
    pub format: OutputKind,
    /// Seconds to wait between two usernames.
    pub delay: u64,
    /// Browser executable to register, if one is given.
    pub set_exe_path: Option<String>,
}

} // verus!
