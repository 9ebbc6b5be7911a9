use vstd::prelude::*;

verus! {

/// An immutable hook descriptor, read but never changed by the engine.
#[derive(Debug, Clone)]
pub struct Hook {
    pub id: String,
    pub alias: String,
    pub name: String,
    pub entry: String,
    pub args: Vec<String>,
    /// Selecting pattern over file paths.
    pub files: Option<String>,
    /// Exclude pattern over file paths.
    pub exclude: Option<String>,
    /// Tags that must all be present.
    pub types: Vec<String>,
    /// Tags of which at least one must be present.
    pub types_or: Vec<String>,
    /// Tags of which none may be present.
    pub exclude_types: Vec<String>,
    pub always_run: bool,
    pub fail_fast: bool,
    pub require_serial: bool,
    pub pass_filenames: bool,
    pub verbose: bool,
    pub log_file: Option<String>,
}

/// The views of a sequence of strings.
pub open spec fn strs(s: Seq<String>) -> Seq<Seq<char>> {
    s.map_values(|x: String| x@)
}

/// The view of an optional string.
pub open spec fn opt_str(s: Option<String>) -> Option<Seq<char>> {
    match s {
        Some(x) => Some(x@),
        None => None,
    }
}

} // verus!
