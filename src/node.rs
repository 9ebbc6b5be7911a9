use vstd::prelude::*;

use crate::hook::Hook;

verus! {

/// The Node.js hook language.
#[derive(Debug, Copy, Clone)]
pub struct Node;

impl Node {
    /// Directory, under a hook's environment, that holds its Node.js install.
    pub fn environment_dir(&self) -> (r: Option<&'static str>)
        ensures
            r matches Some(d) && d@ == "node_env"@,
    {
        proof {
            reveal_strlit("node_env");
        }
        Some("node_env")
    }

    /// Runs one batch of a Node.js hook: it exits with zero and prints nothing.
    pub fn run(&self, _hook: &Hook, _filenames: &[String]) -> (r: (i32, Vec<u8>))
        ensures
            r.0 == 0,
            r.1@ == Seq::<u8>::empty(),
    {
        (0, Vec::new())
    }
}

} // verus!
