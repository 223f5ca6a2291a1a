//! The depth-first walk, one step at a time.
//!
//! The walk reads no directory itself. A step either tests one entry against
//! the patterns, or names a directory whose listing it needs next; the caller
//! lists that directory and hands what came of it to [`Walk::enter`]. The
//! first directory that cannot be read ends the walk, and what was found
//! until then is given up.

use crate::args::{sources, Args, ArgsView};
use crate::pattern::accepts;
use vstd::prelude::*;

verus! {

/// One entry of a directory listing, as plain values.
#[derive(Clone, Debug)]
pub struct Entry {
    /// The path of the entry: that of the directory listed, and its name.
    pub path: String,
    /// The base name of the entry, where it has one.
    pub name: Option<String>,
    /// Whether the entry is a directory.
    pub is_dir: bool,
}

/// An entry, as the contracts see it.
pub struct EntryView {
    pub path: Seq<char>,
    pub name: Option<Seq<char>>,
    pub is_dir: bool,
}

impl View for Entry {
    type V = EntryView;

    open spec fn view(&self) -> EntryView {
        EntryView {
            path: self.path@,
            name: match self.name {
                Some(name) => Some(name@),
                None => None,
            },
            is_dir: self.is_dir,
        }
    }
}

/// Why a directory could not be listed.
#[derive(Clone, Debug)]
pub struct ReadFailure {
    /// The message of the error that the listing met.
    pub message: String,
}

impl View for ReadFailure {
    type V = Seq<char>;

    open spec fn view(&self) -> Seq<char> {
        self.message@
    }
}

/// A failure, where there is one, as the contracts see it.
pub open spec fn failure_view(failure: Option<ReadFailure>) -> Option<Seq<char>> {
    match failure {
        Some(failure) => Some(failure@),
        None => None,
    }
}

/// The views of a list of entries.
pub open spec fn views(entries: Seq<Entry>) -> Seq<EntryView> {
    entries.map_values(|e: Entry| e@)
}

/// The texts of a list of strings.
pub open spec fn texts(strings: Seq<String>) -> Seq<Seq<char>> {
    strings.map_values(|s: String| s@)
}

/// A sequence read from its end.
pub open spec fn backwards<A>(s: Seq<A>) -> Seq<A> {
    Seq::new(s.len(), |i: int| s[s.len() - 1 - i])
}

/// The index of the first pattern that accepts `name`, if one does.
pub open spec fn first_accepting(patterns: Seq<Seq<char>>, name: Seq<char>) -> Option<int>
    decreases patterns.len(),
{
    if patterns.len() == 0 {
        None
    } else {
        match first_accepting(patterns.drop_last(), name) {
            Some(i) => Some(i),
            None => if accepts(patterns.last(), name) {
                Some(patterns.len() - 1)
            } else {
                None
            },
        }
    }
}

/// Pattern `i` accepts the name, and no pattern before it does.
pub open spec fn is_first_accepting(patterns: Seq<Seq<char>>, name: Seq<char>, i: int) -> bool {
    &&& 0 <= i < patterns.len()
    &&& accepts(patterns[i], name)
    &&& forall|j: int| 0 <= j < i ==> !accepts(#[trigger] patterns[j], name)
}

/// What `first_accepting` picks: the least index of a pattern that accepts
/// the name, and nothing exactly when no pattern accepts it.
pub proof fn lemma_first_accepting(patterns: Seq<Seq<char>>, name: Seq<char>)
    ensures
        first_accepting(patterns, name) matches Some(i) ==> is_first_accepting(patterns, name, i),
        first_accepting(patterns, name) is None ==> forall|j: int|
            0 <= j < patterns.len() ==> !accepts(#[trigger] patterns[j], name),
    decreases patterns.len(),
{
    if patterns.len() > 0 {
        let shorter = patterns.drop_last();
        lemma_first_accepting(shorter, name);
        assert(forall|j: int| 0 <= j < shorter.len() ==> shorter[j] == patterns[j]);
    }
}

/// A pattern that accepts the name, with none before it that does, is the one
/// that `first_accepting` picks.
pub proof fn lemma_first_accepting_is(patterns: Seq<Seq<char>>, name: Seq<char>, i: int)
    requires
        is_first_accepting(patterns, name, i),
    ensures
        first_accepting(patterns, name) == Some(i),
{
    lemma_first_accepting(patterns, name);
}

/// The verdict on an entry: the first pattern that accepts its base name. An
/// entry without a base name has none.
pub open spec fn verdict(patterns: Seq<Seq<char>>, name: Option<Seq<char>>) -> Option<int> {
    match name {
        Some(name) => first_accepting(patterns, name),
        None => None,
    }
}

/// The state of a walk, as the contracts see it.
pub struct WalkView {
    /// The roots that are still to be listed, the next one first.
    pub roots: Seq<Seq<char>>,
    /// The entries that were listed and not looked at yet, the next one first.
    pub pending: Seq<EntryView>,
    /// The paths that matched so far, in the order in which they were found.
    pub matches: Seq<Seq<char>>,
    /// The failure that ended the walk, if one did.
    pub failure: Option<Seq<char>>,
}

/// What a step of the walk did, as the contracts see it.
pub enum StepView {
    List(Seq<char>),
    Tested(EntryView, Option<int>),
    Done,
}

/// What a step of the walk did, or asks for.
#[derive(Debug)]
pub enum Step {
    /// The directory at this path is to be listed, and its entries handed to
    /// [`Walk::enter`] before the next step.
    List(String),
    /// The entry was tested; with it comes the index of the first pattern
    /// that accepted its base name. Where there is one, the entry's path has
    /// joined the matches.
    Tested(Entry, Option<usize>),
    /// Nothing is left to do.
    Done,
}

/// The index of a pattern, where there is one, as the contracts see it.
pub open spec fn index_view(hit: Option<usize>) -> Option<int> {
    match hit {
        Some(i) => Some(i as int),
        None => None,
    }
}

impl View for Step {
    type V = StepView;

    open spec fn view(&self) -> StepView {
        match self {
            Step::List(path) => StepView::List(path@),
            Step::Tested(entry, hit) => StepView::Tested(entry@, index_view(*hit)),
            Step::Done => StepView::Done,
        }
    }
}

/// The walk at its start: the roots are the paths given, or the current
/// directory where none was given, and nothing is pending or matched.
pub open spec fn start(args: ArgsView) -> WalkView {
    WalkView {
        roots: if args.paths.len() == 0 {
            seq!["."@]
        } else {
            args.paths
        },
        pending: Seq::empty(),
        matches: Seq::empty(),
        failure: None,
    }
}

/// One step. A walk that has failed is over. Else the next pending entry is
/// taken first: a directory, in a recursive walk, is to be listed; any other
/// entry is tested, and its path recorded where a pattern accepts its base
/// name. With nothing pending the next root is to be listed, and with no
/// root left the walk is over.
pub open spec fn step(args: ArgsView, walk: WalkView) -> (WalkView, StepView) {
    if walk.failure is Some {
        (walk, StepView::Done)
    } else if walk.pending.len() > 0 {
        let entry = walk.pending.first();
        let rest = walk.pending.drop_first();
        if entry.is_dir && args.options.recursive {
            (WalkView { pending: rest, ..walk }, StepView::List(entry.path))
        } else {
            let hit = verdict(args.patterns, entry.name);
            let matches = if hit is Some {
                walk.matches.push(entry.path)
            } else {
                walk.matches
            };
            (WalkView { pending: rest, matches, ..walk }, StepView::Tested(entry, hit))
        }
    } else if walk.roots.len() > 0 {
        (WalkView { roots: walk.roots.drop_first(), ..walk }, StepView::List(walk.roots.first()))
    } else {
        (walk, StepView::Done)
    }
}

/// With no root path given, the current directory is the one root: the
/// first step asks for its listing, and no root is left after it.
pub proof fn lemma_default_root(args: ArgsView)
    requires
        args.paths.len() == 0,
    ensures
        start(args).roots == seq!["."@],
        step(args, start(args)).1 == StepView::List("."@),
        step(args, start(args)).0.roots.len() == 0,
{
}

/// What came of listing a directory, as the contracts see it.
pub open spec fn listing_view(listing: Result<Vec<Entry>, ReadFailure>) -> Result<
    Seq<EntryView>,
    Seq<char>,
> {
    match listing {
        Ok(entries) => Ok(views(entries@)),
        Err(failure) => Err(failure@),
    }
}

/// A walk that a failure has ended: nothing is left to do, and nothing is
/// kept of what was found.
pub open spec fn failed(failure: Seq<char>) -> WalkView {
    WalkView {
        roots: Seq::empty(),
        pending: Seq::empty(),
        matches: Seq::empty(),
        failure: Some(failure),
    }
}

/// The walk after a directory was listed. Its entries come before all that
/// is pending. A directory that could not be read ends the walk. A walk
/// that has failed stays as it is.
pub open spec fn enter(walk: WalkView, listing: Result<Seq<EntryView>, Seq<char>>) -> WalkView {
    if walk.failure is Some {
        walk
    } else {
        match listing {
            Ok(entries) => WalkView { pending: entries + walk.pending, ..walk },
            Err(failure) => failed(failure),
        }
    }
}

/// The walk after the test of an entry was recorded: the entry's path joins
/// the matches where a pattern accepted it. A walk that has failed stays as
/// it is.
pub open spec fn record(walk: WalkView, path: Seq<char>, hit: bool) -> WalkView {
    if hit && walk.failure is None {
        WalkView { matches: walk.matches.push(path), ..walk }
    } else {
        walk
    }
}

/// What a walk ends with: the paths that matched, in the order in which
/// they were found, or the failure that ended it.
pub open spec fn finish(walk: WalkView) -> Result<Seq<Seq<char>>, Seq<char>> {
    match walk.failure {
        Some(failure) => Err(failure),
        None => Ok(walk.matches),
    }
}

/// The end of a walk, as the contracts see it.
pub open spec fn end_view(end: Result<Vec<String>, ReadFailure>) -> Result<
    Seq<Seq<char>>,
    Seq<char>,
> {
    match end {
        Ok(matches) => Ok(texts(matches@)),
        Err(failure) => Err(failure@),
    }
}

/// The state of a walk. Roots and pending entries are kept with the next one
/// last.
#[derive(Debug)]
pub struct Walk {
    roots: Vec<String>,
    pending: Vec<Entry>,
    matches: Vec<String>,
    failure: Option<ReadFailure>,
}

impl View for Walk {
    type V = WalkView;

    closed spec fn view(&self) -> WalkView {
        WalkView {
            roots: backwards(texts(self.roots@)),
            pending: backwards(views(self.pending@)),
            matches: texts(self.matches@),
            failure: failure_view(self.failure),
        }
    }
}

impl Walk {
    /// Takes what came of listing the directory that the last step asked
    /// for. Its entries are put before all that is pending, in the order of
    /// the listing; a failure ends the walk.
    pub fn enter(&mut self, listing: Result<Vec<Entry>, ReadFailure>)
        ensures
            final(self)@ == enter(old(self)@, listing_view(listing)),
    {
        if self.failure.is_some() {
            return;
        }
        let mut entries = match listing {
            Ok(entries) => entries,
            Err(failure) => {
                self.roots = Vec::new();
                self.pending = Vec::new();
                self.matches = Vec::new();
                self.failure = Some(failure);
                proof {
                    assert(self@.roots == Seq::<Seq<char>>::empty());
                    assert(self@.pending == Seq::<EntryView>::empty());
                    assert(self@.matches == Seq::<Seq<char>>::empty());
                }
                return;
            },
        };
        let ghost listed = views(entries@);
        let ghost before = views(self.pending@);
        while entries.len() > 0
            invariant
                self.roots == old(self).roots,
                self.matches == old(self).matches,
                self.failure == old(self).failure,
                before == views(old(self).pending@),
                views(entries@) == listed.take(entries@.len() as int),
                entries@.len() <= listed.len(),
                views(self.pending@) == before + backwards(listed.skip(entries@.len() as int)),
            decreases entries@.len(),
        {
            let ghost n = entries@.len() as int;
            let ghost held = views(self.pending@);
            let ghost full = views(entries@);
            let entry = entries.pop().unwrap();
            assert(entry@ == listed[n - 1]) by {
                assert(full[n - 1] == entry@);
            }
            self.pending.push(entry);
            assert(held.push(entry@) == before + backwards(listed.skip(n - 1)));
        }
        proof {
            assert(listed.skip(0) == listed);
            assert(backwards(before + backwards(listed)) == listed + backwards(before));
        }
    }

    /// The paths that matched so far, in the order in which they were found.
    pub fn matches(&self) -> (matches: &Vec<String>)
        ensures
            texts(matches@) == self@.matches,
    {
        &self.matches
    }

    /// Ends the walk: hands out the paths that matched, in the order in
    /// which they were found, or the failure that ended it.
    pub fn finish(self) -> (end: Result<Vec<String>, ReadFailure>)
        ensures
            end_view(end) == finish(self@),
    {
        match self.failure {
            Some(failure) => Err(failure),
            None => Ok(self.matches),
        }
    }

    /// Records what the test of an entry gave: the index of the first
    /// pattern that accepted it, or nothing.
    pub fn record(&mut self, entry: &Entry, hit: Option<usize>)
        ensures
            final(self)@ == record(old(self)@, entry@.path, hit is Some),
    {
        if hit.is_some() && self.failure.is_none() {
            let ghost held = texts(self.matches@);
            self.matches.push(entry.path.clone());
            assert(texts(self.matches@) == held.push(entry.path@));
        }
    }
}

impl Args {
    /// Tests an entry's base name against the patterns in the order in which
    /// they were given, and returns the index of the first that accepts it.
    pub fn check_if_path_satisfy(&self, entry: &Entry) -> (hit: Option<usize>)
        ensures
            index_view(hit) == verdict(self@.patterns, entry@.name),
    {
        let name = match &entry.name {
            Some(name) => name.as_str(),
            None => {
                return None;
            },
        };
        let expressions = self.expressions();
        let ghost patterns = self@.patterns;
        let mut i: usize = 0;
        while i < expressions.len()
            invariant
                i <= expressions@.len(),
                patterns == sources(expressions@),
                patterns == self@.patterns,
                entry@.name == Some(name@),
                forall|j: int| 0 <= j < i ==> !accepts(#[trigger] patterns[j], name@),
            decreases expressions@.len() - i,
        {
            if expressions[i].is_match(name) {
                proof {
                    lemma_first_accepting_is(patterns, name@, i as int);
                }
                return Some(i);
            }
            i += 1;
        }
        proof {
            lemma_first_accepting(patterns, name@);
        }
        None
    }

    /// Begins a search from the root paths, or from the current directory
    /// where there is none.
    pub fn find(&self) -> (walk: Walk)
        ensures
            walk@ == start(self@),
            self@.paths.len() == 0 ==> walk@.roots == seq!["."@],
    {
        let paths = self.paths();
        let mut roots: Vec<String> = Vec::new();
        if paths.len() == 0 {
            roots.push(".".to_owned());
        } else {
            let mut i: usize = paths.len();
            while i > 0
                invariant
                    i <= paths@.len(),
                    texts(roots@) == backwards(texts(paths@).skip(i as int)),
                decreases i,
            {
                let ghost held = texts(roots@);
                i -= 1;
                roots.push(paths[i].clone());
                assert(texts(roots@) == held.push(paths@[i as int]@));
            }
        }
        let walk = Walk { roots, pending: Vec::new(), matches: Vec::new(), failure: None };
        proof {
            assert(walk@.roots == start(self@).roots);
            assert(walk@.pending == start(self@).pending);
            assert(walk@.matches == start(self@).matches);
        }
        walk
    }

    /// Takes one step of the depth-first search.
    pub fn dfs(&self, walk: &mut Walk) -> (done: Step)
        ensures
            (final(walk)@, done@) == step(self@, old(walk)@),
    {
        if walk.failure.is_some() {
            return Step::Done;
        }
        let ghost pending = views(walk.pending@);
        let ghost roots = texts(walk.roots@);
        match walk.pending.pop() {
            Some(entry) => {
                assert(backwards(views(walk.pending@)) == backwards(pending).drop_first());
                if entry.is_dir && self.options().recursive {
                    Step::List(entry.path)
                } else {
                    let hit = self.check_if_path_satisfy(&entry);
                    walk.record(&entry, hit);
                    Step::Tested(entry, hit)
                }
            },
            None => match walk.roots.pop() {
                Some(root) => {
                    assert(backwards(texts(walk.roots@)) == backwards(roots).drop_first());
                    Step::List(root)
                },
                None => Step::Done,
            },
        }
    }
}

/// What a command line asks for.
#[derive(Debug)]
pub enum Action {
    /// The usage text is to be shown, and nothing searched.
    Usage,
    /// The version is to be shown, and nothing searched.
    Version,
    /// A search is to be made, from this state.
    Search(Walk),
}

/// Decides what a command line asks for. The help switch comes before the
/// version switch, and either comes before any search.
pub fn run(args: &Args) -> (action: Action)
    ensures
        action is Usage <==> args@.options.help,
        action is Version <==> !args@.options.help && args@.options.version,
        action matches Action::Search(walk) ==> walk@ == start(args@),
{
    if args.options().help {
        Action::Usage
    } else if args.options().version {
        Action::Version
    } else {
        Action::Search(args.find())
    }
}

} // verus!
