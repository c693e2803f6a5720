//! The command line: which of the arguments names the list of events.

use crate::text::texts;
use vstd::prelude::*;
use vstd::string::StringExecFns;

verus! {

/// Where among the arguments the path of the list stands, if they name
/// one. A first argument `--` is passed over, and the next one is the path
/// whatever it reads; a first argument `--help` or `-h` asks for the usage
/// and names no path; any other first argument is the path.
pub open spec fn path_position(args: Seq<Seq<char>>) -> Option<int> {
    if args.len() == 0 {
        None
    } else if args[0] == "--"@ {
        if args.len() > 1 {
            Some(1)
        } else {
            None
        }
    } else if args[0] == "--help"@ || args[0] == "-h"@ {
        None
    } else {
        Some(0)
    }
}

/// Where among `args`, the arguments behind the program's name, the path of
/// the list stands; `None` where the usage is to be shown instead.
pub fn config_path(args: &Vec<String>) -> (at: Option<usize>)
    ensures
        match at {
            Some(i) => path_position(texts(args@)) == Some(i as int),
            None => path_position(texts(args@)) is None,
        },
{
    if args.len() == 0 {
        return None;
    }
    assert(texts(args@)[0] == args@[0]@);
    if args[0] == String::from_str("--") {
        if args.len() > 1 {
            Some(1)
        } else {
            None
        }
    } else if args[0] == String::from_str("--help") || args[0] == String::from_str("-h") {
        None
    } else {
        Some(0)
    }
}

} // verus!
