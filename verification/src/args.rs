use vstd::prelude::*;

verus! {

/// Server configuration: the listening port and, optionally, the root
/// directory to serve; when no root is given the server falls back to the
/// process's current directory.
pub struct Args {
    pub port: u16,
    pub root: Option<String>,
}

} // verus!
