//! Selection of the input file path from the process's invocation arguments.

use vstd::prelude::*;

verus! {

/// Picks the input file path out of the full argument vector, program name
/// first, exactly as the process received it.  Returns the path verbatim
/// when there is exactly one argument beside the program name; any other
/// count is a usage error and yields `None`.
pub fn select_path(args: &Vec<String>) -> (r: Option<String>)
    ensures
        r is Some <==> args@.len() == 2,
        r matches Some(p) ==> p@ == args@[1]@,
{
    if args.len() == 2 {
        Some(args[1].clone())
    } else {
        None
    }
}

} // verus!
