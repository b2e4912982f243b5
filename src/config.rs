//! Turning the argument list and the case setting into a search request.

use vstd::prelude::*;
use vstd::string::*;

verus! {

/// A resolved search request: what to look for, where, and whether case counts.
pub struct Config {
    pub query: String,
    pub file_path: String,
    pub ignore_case: bool,
}

/// A wrong argument list, with a message that says how to call the program.
pub struct UsageError {
    pub message: String,
}

impl UsageError {
    /// The text of the message.
    pub fn message(&self) -> (r: String)
        ensures
            r@ == self.message@,
    {
        self.message.clone()
    }
}

/// How to call the program named `program`.
pub open spec fn usage_text(program: Seq<char>) -> Seq<char> {
    "Usage: "@ + program + " <query> <file_path>\n"@
        + "Set environment variable IGNORE_CASE to do case insensitive searching"@
}

/// The message for an argument list of `args`, which must not hold exactly a
/// program name, a query and a file path.
pub open spec fn usage_error_text(args: Seq<Seq<char>>) -> Seq<char> {
    if args.len() == 0 {
        "unable to find name of program"@
    } else if args.len() == 1 {
        "query argument not found\n"@ + usage_text(args[0])
    } else if args.len() == 2 {
        "file path argument not found\n"@ + usage_text(args[0])
    } else {
        "too many arguments\n"@ + usage_text(args[0])
    }
}

fn usage(program: &String) -> (r: String)
    ensures
        r@ == usage_text(program@),
{
    let mut text = String::from_str("Usage: ");
    text.append(program.as_str());
    text.append(" <query> <file_path>\n");
    text.append("Set environment variable IGNORE_CASE to do case insensitive searching");
    text
}

fn prefixed(head: &str, tail: &String) -> (r: String)
    ensures
        r@ == head@ + tail@,
{
    let mut text = String::from_str(head);
    text.append(tail.as_str());
    text
}

impl Config {
    /// Reads a request from `args`: the program name, then the query, then the
    /// file path, and nothing more. `ignore_case` says whether case is to be
    /// ignored (set when `IGNORE_CASE` is present in the environment).
    pub fn build(args: &Vec<String>, ignore_case: bool) -> (r: Result<Config, UsageError>)
        ensures
            r is Ok <==> args.len() == 3,
            r matches Ok(c) ==> c.query@ == args[1]@ && c.file_path@ == args[2]@
                && c.ignore_case == ignore_case,
            r matches Err(e) ==> e.message@ == usage_error_text(args@.map_values(|a: String| a@)),
    {
        let ghost views = args@.map_values(|a: String| a@);
        if args.len() == 0 {
            return Err(UsageError { message: String::from_str("unable to find name of program") });
        }
        let text = usage(&args[0]);
        assert(views[0] == args[0]@);
        if args.len() == 1 {
            Err(UsageError { message: prefixed("query argument not found\n", &text) })
        } else if args.len() == 2 {
            Err(UsageError { message: prefixed("file path argument not found\n", &text) })
        } else if args.len() > 3 {
            Err(UsageError { message: prefixed("too many arguments\n", &text) })
        } else {
            Ok(Config { query: args[1].clone(), file_path: args[2].clone(), ignore_case })
        }
    }
}

} // verus!
