//! The demonstration greeting returned to the host shell.

use vstd::prelude::*;
use vstd::string::StringExecFns;

verus! {

/// A greeting addressed to `name`.
pub fn greet(name: &str) -> (r: String)
    ensures
        r@ == "Hello, "@ + name@ + "! You've been greeted from Rust!"@,
{
    let mut s = String::from_str("Hello, ");
    s.append(name);
    s.append("! You've been greeted from Rust!");
    s
}

} // verus!
