//! The saved configuration: where the Chromium-based browser lives.
use vstd::prelude::*;
use crate::utils::{message, PathKind};

verus! {

/// The application's configuration.
#[derive(Clone, Debug)]
pub struct AppConfig {
    /// Path of the Chromium-based browser executable.
    pub exe_path: String,
}

impl AppConfig {
    /// A configuration that points at `exe_path`.
    pub fn new(exe_path: &String) -> (c: AppConfig)
        ensures
            c.exe_path@ == exe_path@,
    {
        AppConfig { exe_path: exe_path.clone() }
    }
}

/// Why the browser path `path` cannot be used, or `None` when it names a
/// regular file: a missing path reads `"<path>: No such file "`, anything else
/// that is no regular file `"<path>: Not a file"`.
pub open spec fn chrome_path_problem_spec(path: Seq<char>, kind: PathKind) -> Option<Seq<char>> {
    match kind {
        PathKind::Missing => Some(path + ": No such file "@),
        PathKind::File => None,
        _ => Some(path + ": Not a file"@),
    }
}

/// Decides whether the registered browser executable is usable.
pub fn chrome_path_problem(path: &str, kind: PathKind) -> (r: Option<String>)
    ensures
        r.deep_view() == chrome_path_problem_spec(path@, kind),
{
    match kind {
        PathKind::Missing => Some(message(path, ": No such file ")),
        PathKind::File => None,
        _ => Some(message(path, ": Not a file")),
    }
}

} // verus!
