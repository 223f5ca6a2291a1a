//! Name patterns: regular expressions of the `regex` crate, each kept with
//! the text it was compiled from.

use regex::Regex;
use vstd::prelude::*;

verus! {

/// `regex::Regex`, a compiled regular expression. Nothing is known of what
/// it holds.
#[verifier::external_type_specification]
#[verifier::external_body]
pub struct ExRegex(regex::Regex);

/// `regex::Error`, the error of a compilation that failed. Nothing is known
/// of what it holds.
#[verifier::external_type_specification]
#[verifier::external_body]
pub struct ExRegexError(regex::Error);

/// Whether `Regex::new` accepts the text as a regular expression, on the
/// target that the library is built for.
pub uninterp spec fn compiles(pattern: Seq<char>) -> bool;

/// The pattern text that a compiled expression holds, as `Regex::as_str`
/// returns it.
pub uninterp spec fn source_of(re: Regex) -> Seq<char>;

/// Whether the expression finds a match somewhere in `text`: what
/// `Regex::is_match` returns. Two expressions with the same text may differ
/// here, since an expression may have been built with other options.
pub uninterp spec fn matched_by(re: Regex, text: Seq<char>) -> bool;

/// Whether an expression that `Regex::new` compiles from `pattern` finds a
/// match somewhere in `text`.
pub uninterp spec fn accepts(pattern: Seq<char>, text: Seq<char>) -> bool;

/// The expression is what `Regex::new` makes of `pattern`: it holds that
/// text, and it matches as the text tells.
pub open spec fn compiled_from(re: Regex, pattern: Seq<char>) -> bool {
    &&& source_of(re) == pattern
    &&& forall|text: Seq<char>| #[trigger] matched_by(re, text) == accepts(pattern, text)
}

/// `Regex::new` succeeds on the texts that `compiles` holds of, and on no
/// others. The expression it returns holds its argument as pattern text,
/// and what that expression matches is a matter of the argument alone:
/// `Regex::new` sets no option of its own.
pub assume_specification[ Regex::new ](re: &str) -> (compiled: Result<Regex, regex::Error>)
    ensures
        compiled is Ok == compiles(re@),
        compiled matches Ok(regex) ==> source_of(regex) == re@,
        compiled matches Ok(regex) ==> forall|text: Seq<char>| #[trigger]
            matched_by(regex, text) == accepts(re@, text),
;

/// `Regex::is_match` reports whether the expression finds a match anywhere
/// in the haystack: a matter of the expression and of the haystack.
pub assume_specification[ Regex::is_match ](re: &Regex, haystack: &str) -> (found: bool)
    ensures
        found == matched_by(*re, haystack@),
;

/// A compiled name pattern together with its source text.
#[derive(Debug)]
pub struct Matcher {
    source: String,
    regex: Regex,
}

impl View for Matcher {
    type V = Seq<char>;

    /// A matcher is known by the text of its pattern.
    closed spec fn view(&self) -> Seq<char> {
        self.source@
    }
}

impl Matcher {
    /// The expression is what `Regex::new` makes of the source text.
    #[verifier::type_invariant]
    spec fn compiled_from_source(self) -> bool {
        compiled_from(self.regex, self.source@)
    }

    /// Keeps the outcome of compiling `pattern` with `Regex::new`: a matcher
    /// where the compilation succeeded, nothing where it failed. An
    /// expression that was built in another way is not an outcome of it.
    pub fn from_compiled(
        pattern: &str,
        compiled: Result<Regex, regex::Error>,
    ) -> (matcher: Option<Matcher>)
        requires
            compiled matches Ok(regex) ==> compiled_from(regex, pattern@),
        ensures
            matcher is Some == compiled is Ok,
            matcher matches Some(m) ==> m@ == pattern@,
    {
        match compiled {
            Ok(regex) => Some(Matcher { source: pattern.to_owned(), regex }),
            Err(_) => None,
        }
    }

    /// Compiles a pattern, if it is a regular expression.
    pub fn new(pattern: &str) -> (matcher: Option<Matcher>)
        ensures
            matcher is Some == compiles(pattern@),
            matcher matches Some(m) ==> m@ == pattern@,
    {
        Matcher::from_compiled(pattern, Regex::new(pattern))
    }

    /// The text of the pattern.
    pub fn source(&self) -> (text: &str)
        ensures
            text@ == self@,
    {
        self.source.as_str()
    }

    /// Whether the pattern finds a match somewhere in `name`.
    pub fn is_match(&self, name: &str) -> (found: bool)
        ensures
            found == accepts(self@, name@),
    {
        proof {
            use_type_invariant(self);
        }
        self.regex.is_match(name)
    }
}

} // verus!
