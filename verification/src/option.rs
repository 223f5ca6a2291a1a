//! The four switches of a search.

use crate::text::str_eq;
use vstd::prelude::*;

verus! {

/// The switches that the flag tokens of a command line turn on.
#[derive(Clone, Copy, Debug, PartialEq, Eq, Structural)]
pub struct Options {
    pub verbose: bool,
    pub help: bool,
    pub version: bool,
    pub recursive: bool,
}

/// The token asks for diagnostic output.
pub open spec fn is_verbose(token: Seq<char>) -> bool {
    token == "-v"@ || token == "--verbose"@
}

/// The token asks for the version.
pub open spec fn is_version(token: Seq<char>) -> bool {
    token == "-V"@ || token == "--version"@
}

/// The token asks for a walk that descends into subdirectories.
pub open spec fn is_recursive(token: Seq<char>) -> bool {
    token == "-r"@ || token == "--recursive"@
}

/// The token is one of the three switches with a meaning of its own.
pub open spec fn is_recognized(token: Seq<char>) -> bool {
    is_verbose(token) || is_version(token) || is_recursive(token)
}

/// No token spells two switches at once.
pub proof fn lemma_switches_distinct(token: Seq<char>)
    ensures
        !(is_verbose(token) && is_version(token)),
        !(is_verbose(token) && is_recursive(token)),
        !(is_version(token) && is_recursive(token)),
{
    reveal_strlit("-v");
    reveal_strlit("--verbose");
    reveal_strlit("-V");
    reveal_strlit("--version");
    reveal_strlit("-r");
    reveal_strlit("--recursive");
    // The short switches differ in their second letter; the long ones in
    // their length or, for `--verbose` and `--version`, in their sixth.
    if is_version(token) {
        assert(token[1] == 'V' || token[5] == 's');
    }
    if is_recursive(token) {
        assert(token[1] == 'r' || token.len() == 11);
    }
}

impl Options {
    /// The switches that a list of tokens turns on: each of the three named
    /// switches is on when some token spells it, and `help` is on when some
    /// token spells none of them.
    pub open spec fn of(tokens: Seq<Seq<char>>) -> Options {
        Options {
            verbose: exists|i: int| 0 <= i < tokens.len() && is_verbose(#[trigger] tokens[i]),
            help: exists|i: int| 0 <= i < tokens.len() && !is_recognized(#[trigger] tokens[i]),
            version: exists|i: int| 0 <= i < tokens.len() && is_version(#[trigger] tokens[i]),
            recursive: exists|i: int| 0 <= i < tokens.len() && is_recursive(#[trigger] tokens[i]),
        }
    }

    /// Reads the switches off a list of tokens.
    pub fn new(args: Vec<String>) -> (options: Options)
        ensures
            options == Options::of(args.deep_view()),
    {
        let mut verbose = false;
        let mut help = false;
        let mut version = false;
        let mut recursive = false;
        let ghost tokens = args.deep_view();
        let mut i: usize = 0;
        while i < args.len()
            invariant
                i <= args@.len(),
                tokens == args.deep_view(),
                tokens.len() == args@.len(),
                verbose == Options::of(tokens.take(i as int)).verbose,
                help == Options::of(tokens.take(i as int)).help,
                version == Options::of(tokens.take(i as int)).version,
                recursive == Options::of(tokens.take(i as int)).recursive,
            decreases args@.len() - i,
        {
            let arg = args[i].as_str();
            proof {
                assert(tokens.take(i + 1)[i as int] == arg@);
                lemma_switches_distinct(arg@);
            }
            if str_eq(arg, "-v") || str_eq(arg, "--verbose") {
                verbose = true;
            } else if str_eq(arg, "-V") || str_eq(arg, "--version") {
                version = true;
            } else if str_eq(arg, "-r") || str_eq(arg, "--recursive") {
                recursive = true;
            } else {
                help = true;
            }
            i += 1;
        }
        proof {
            assert(tokens.take(i as int) == tokens);
        }
        Options { verbose, help, version, recursive }
    }
}

} // verus!
