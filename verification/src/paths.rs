//! Path strings built for the filesystem-mutation commands.

use vstd::prelude::*;
use vstd::string::StringExecFns;

verus! {

/// The path of a child called `name` directly under `dir`.
pub fn child_path(dir: &str, name: &str) -> (r: String)
    ensures
        r@ == dir@ + "/"@ + name@,
{
    let mut s = String::from_str(dir);
    s.append("/");
    s.append(name);
    s
}

} // verus!
