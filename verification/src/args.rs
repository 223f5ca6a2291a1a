//! Sorting the tokens of a command line into flags, root paths and patterns.

use crate::option::Options;
use crate::pattern::{compiles, Matcher};
use vstd::prelude::*;

verus! {

/// What a token is taken for.
#[derive(Clone, Copy, Debug, PartialEq, Eq, Structural)]
pub enum Kind {
    /// It begins with a dash.
    Flag,
    /// It names an entry that exists.
    Root,
    /// It is a regular expression.
    Pattern,
    /// It is none of these.
    Invalid,
}

/// The token begins with a dash.
pub open spec fn is_flag(token: Seq<char>) -> bool {
    token.len() > 0 && token[0] == '-'
}

/// How a token is classified, given whether it names an existing entry. The
/// dash is looked at first, existence second, and only a token that is
/// neither is tried as a pattern.
pub open spec fn kind_of(token: Seq<char>, exists: bool) -> Kind {
    if is_flag(token) {
        Kind::Flag
    } else if exists {
        Kind::Root
    } else if compiles(token) {
        Kind::Pattern
    } else {
        Kind::Invalid
    }
}

/// The tokens of one kind, in the order in which they were given.
pub open spec fn select(tokens: Seq<Seq<char>>, exists: Seq<bool>, kind: Kind) -> Seq<Seq<char>>
    recommends
        tokens.len() == exists.len(),
    decreases tokens.len(),
{
    if tokens.len() == 0 {
        Seq::empty()
    } else {
        let earlier = select(tokens.drop_last(), exists.drop_last(), kind);
        if kind_of(tokens.last(), exists.last()) == kind {
            earlier.push(tokens.last())
        } else {
            earlier
        }
    }
}

/// Every token is a flag, a root or a pattern.
pub open spec fn all_valid(tokens: Seq<Seq<char>>, exists: Seq<bool>) -> bool {
    forall|i: int|
        0 <= i < tokens.len() ==> kind_of(#[trigger] tokens[i], exists[i]) != Kind::Invalid
}

/// Token `k` is invalid and no token before it is.
pub open spec fn is_first_invalid(tokens: Seq<Seq<char>>, exists: Seq<bool>, k: int) -> bool {
    &&& 0 <= k < tokens.len()
    &&& kind_of(tokens[k], exists[k]) == Kind::Invalid
    &&& all_valid(tokens.take(k), exists.take(k))
}

/// A token that names an existing entry, and does not begin with a dash, is
/// a root whether or not it is a regular expression too: it stands among the
/// roots, and the patterns are those of the command line without it.
pub proof fn lemma_existing_path_is_root(tokens: Seq<Seq<char>>, exists: Seq<bool>, i: int)
    requires
        tokens.len() == exists.len(),
        0 <= i < tokens.len(),
        exists[i],
        !is_flag(tokens[i]),
    ensures
        kind_of(tokens[i], exists[i]) == Kind::Root,
        select(tokens, exists, Kind::Root).contains(tokens[i]),
        select(tokens, exists, Kind::Pattern) == select(
            tokens.remove(i),
            exists.remove(i),
            Kind::Pattern,
        ),
    decreases tokens.len(),
{
    let last = tokens.len() - 1;
    if i == last {
        let roots = select(tokens, exists, Kind::Root);
        assert(roots[roots.len() - 1] == tokens[i]);
    } else {
        lemma_existing_path_is_root(tokens.drop_last(), exists.drop_last(), i);
        assert(tokens.remove(i).drop_last() == tokens.drop_last().remove(i));
        assert(exists.remove(i).drop_last() == exists.drop_last().remove(i));
        let earlier = select(tokens.drop_last(), exists.drop_last(), Kind::Root);
        let k = choose|k: int| 0 <= k < earlier.len() && earlier[k] == tokens[i];
        let roots = select(tokens, exists, Kind::Root);
        assert(roots[k] == tokens[i]);
    }
}

/// A token after classification.
#[derive(Debug)]
pub enum Token {
    Flag(String),
    Root(String),
    Pattern(Matcher),
    Invalid(String),
}

impl Token {
    /// The kind that the token was given.
    pub open spec fn kind(self) -> Kind {
        match self {
            Token::Flag(_) => Kind::Flag,
            Token::Root(_) => Kind::Root,
            Token::Pattern(_) => Kind::Pattern,
            Token::Invalid(_) => Kind::Invalid,
        }
    }

    /// The text of the token.
    pub open spec fn text(self) -> Seq<char> {
        match self {
            Token::Flag(s) => s@,
            Token::Root(s) => s@,
            Token::Pattern(m) => m@,
            Token::Invalid(s) => s@,
        }
    }
}

/// Whether the token begins with a dash.
pub fn begins_with_dash(token: &str) -> (dash: bool)
    ensures
        dash == is_flag(token@),
{
    !token.is_empty() && token.get_char(0) == '-'
}

/// Classifies one token, given whether it names an existing entry.
pub fn classify(token: &str, exists: bool) -> (classified: Token)
    ensures
        classified.kind() == kind_of(token@, exists),
        classified.text() == token@,
{
    if begins_with_dash(token) {
        Token::Flag(token.to_owned())
    } else if exists {
        Token::Root(token.to_owned())
    } else {
        match Matcher::new(token) {
            Some(matcher) => Token::Pattern(matcher),
            None => Token::Invalid(token.to_owned()),
        }
    }
}

/// The token that is neither a flag, nor an existing path, nor a pattern.
#[derive(Debug)]
pub struct InvalidArgument {
    pub token: String,
}

/// What is said of an invalid token.
pub open spec fn complaint(token: Seq<char>) -> Seq<char> {
    "invalid argument "@ + token + ", not a regex nor a path"@
}

impl InvalidArgument {
    /// The message for the user: it names the token and says that it is
    /// neither a pattern nor a path.
    pub fn message(&self) -> (text: String)
        ensures
            text@ == complaint(self.token@),
    {
        let mut text = "invalid argument ".to_owned();
        text.append(self.token.as_str());
        text.append(", not a regex nor a path");
        text
    }
}

/// The texts of a list of matchers.
pub open spec fn sources(matchers: Seq<Matcher>) -> Seq<Seq<char>> {
    matchers.map_values(|m: Matcher| m@)
}

/// A classified command line, as plain values.
pub struct ArgsView {
    pub options: Options,
    pub paths: Seq<Seq<char>>,
    pub patterns: Seq<Seq<char>>,
    pub name: Seq<char>,
}

/// The classification of a command line whose tokens are all valid: the
/// switches that its flags turn on, its roots and its patterns, each list in
/// the order of the command line.
pub open spec fn classified_as(
    name: Seq<char>,
    tokens: Seq<Seq<char>>,
    exists: Seq<bool>,
) -> ArgsView {
    ArgsView {
        options: Options::of(select(tokens, exists, Kind::Flag)),
        paths: select(tokens, exists, Kind::Root),
        patterns: select(tokens, exists, Kind::Pattern),
        name,
    }
}

/// A classified command line.
#[derive(Debug)]
pub struct Args {
    options: Options,
    paths: Vec<String>,
    expressions: Vec<Matcher>,
    name: String,
}

impl View for Args {
    type V = ArgsView;

    closed spec fn view(&self) -> ArgsView {
        ArgsView {
            options: self.options,
            paths: self.paths.deep_view(),
            patterns: sources(self.expressions@),
            name: self.name@,
        }
    }
}

impl Args {
    /// Classifies a command line. `args[0]` is the program's name and the rest
    /// are the tokens; `exists[i]` tells whether `args[i]` names an existing
    /// filesystem entry. The first invalid token ends the classification.
    pub fn new(args: Vec<String>, exists: Vec<bool>) -> (classified: Result<Args, InvalidArgument>)
        requires
            args@.len() >= 1,
            exists@.len() == args@.len(),
        ensures
            classified is Ok <==> all_valid(args.deep_view().skip(1), exists@.skip(1)),
            classified matches Ok(a) ==> a@ == classified_as(
                args@[0]@,
                args.deep_view().skip(1),
                exists@.skip(1),
            ),
            classified matches Err(e) ==> exists|k: int|
                is_first_invalid(args.deep_view().skip(1), exists@.skip(1), k)
                    && e.token@ == args@[k + 1]@,
    {
        let ghost tokens = args.deep_view().skip(1);
        let ghost found = exists@.skip(1);
        let mut flags: Vec<String> = Vec::new();
        let mut paths: Vec<String> = Vec::new();
        let mut expressions: Vec<Matcher> = Vec::new();
        let name = args[0].clone();
        let mut i: usize = 1;
        while i < args.len()
            invariant
                1 <= i <= args@.len(),
                exists@.len() == args@.len(),
                tokens == args.deep_view().skip(1),
                found == exists@.skip(1),
                all_valid(tokens.take(i - 1), found.take(i - 1)),
                flags.deep_view() == select(tokens.take(i - 1), found.take(i - 1), Kind::Flag),
                paths.deep_view() == select(tokens.take(i - 1), found.take(i - 1), Kind::Root),
                sources(expressions@) == select(
                    tokens.take(i - 1),
                    found.take(i - 1),
                    Kind::Pattern,
                ),
            decreases args@.len() - i,
        {
            let ghost k = i - 1;
            let ghost seen = tokens.take(k);
            let ghost known = found.take(k);
            let classified = classify(args[i].as_str(), exists[i]);
            proof {
                assert(tokens.take(k + 1).drop_last() == seen);
                assert(found.take(k + 1).drop_last() == known);
            }
            match classified {
                Token::Flag(text) => flags.push(text),
                Token::Root(text) => paths.push(text),
                Token::Pattern(matcher) => expressions.push(matcher),
                Token::Invalid(text) => {
                    assert(is_first_invalid(tokens, found, k));
                    return Err(InvalidArgument { token: text });
                },
            }
            i += 1;
        }
        proof {
            assert(tokens.take(i - 1) == tokens);
            assert(found.take(i - 1) == found);
        }
        Ok(Args { options: Options::new(flags), paths, expressions, name })
    }

    /// The switches.
    pub fn options(&self) -> (options: &Options)
        ensures
            *options == self@.options,
    {
        &self.options
    }

    /// The root paths, in the order in which they were given.
    pub fn paths(&self) -> (paths: &Vec<String>)
        ensures
            paths.deep_view() == self@.paths,
    {
        &self.paths
    }

    /// The patterns, in the order in which they were given.
    pub fn expressions(&self) -> (expressions: &Vec<Matcher>)
        ensures
            sources(expressions@) == self@.patterns,
    {
        &self.expressions
    }

    /// The name under which the program was called.
    pub fn name(&self) -> (name: &str)
        ensures
            name@ == self@.name,
    {
        self.name.as_str()
    }
}

} // verus!
