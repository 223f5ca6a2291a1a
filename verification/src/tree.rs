//! What a whole search finds, stated over directory trees, and the proof
//! that the walk finds exactly that.

use crate::args::ArgsView;
use crate::walk::{enter, finish, start, step, verdict, EntryView, StepView, WalkView};
use vstd::prelude::*;

verus! {

/// What listing a directory yields: the trees of its entries, in the order
/// of the listing, or the failure of a directory that cannot be read.
pub enum Below {
    Entries(Seq<Tree>),
    Unreadable(Seq<char>),
}

/// An entry together with what listing it would yield.
pub struct Tree {
    pub entry: EntryView,
    pub below: Below,
}

/// The paths found, or the failure that ended the search.
pub struct Found(pub Result<Seq<Seq<char>>, Seq<char>>);

impl Found {
    /// Nothing found, and no failure.
    pub open spec fn nothing() -> Found {
        Found(Ok(Seq::empty()))
    }

    /// These paths found, and no failure.
    pub open spec fn paths(paths: Seq<Seq<char>>) -> Found {
        Found(Ok(paths))
    }

    /// What is found first, then what is found next. A failure ends the
    /// search: nothing comes after it, and nothing is kept of what came
    /// before.
    pub open spec fn followed_by(self, next: Found) -> Found {
        match (self.0, next.0) {
            (Ok(first), Ok(second)) => Found(Ok(first + second)),
            (Ok(_), Err(failure)) => Found(Err(failure)),
            (Err(failure), _) => Found(Err(failure)),
        }
    }
}

/// The entries at the top of a list of trees: a listing.
pub open spec fn listing(forest: Seq<Tree>) -> Seq<EntryView> {
    forest.map_values(|tree: Tree| tree.entry)
}

/// What the caller of a walk answers when asked to list a directory.
pub open spec fn answer(below: Below) -> Result<Seq<EntryView>, Seq<char>> {
    match below {
        Below::Entries(forest) => Ok(listing(forest)),
        Below::Unreadable(failure) => Err(failure),
    }
}

/// The trees of the entries of a directory; none where it cannot be read.
pub open spec fn trees(below: Below) -> Seq<Tree> {
    match below {
        Below::Entries(forest) => forest,
        Below::Unreadable(_) => Seq::empty(),
    }
}

/// What is found at and below one entry, depth first. A recursive search
/// descends into a directory and does not test it; every other entry is
/// tested, and found where a pattern accepts its base name.
pub open spec fn found_in(args: ArgsView, tree: Tree) -> Found
    decreases tree,
{
    if tree.entry.is_dir && args.options.recursive {
        found_below(args, tree.below)
    } else if verdict(args.patterns, tree.entry.name) is Some {
        Found::paths(seq![tree.entry.path])
    } else {
        Found::nothing()
    }
}

/// What is found in a directory that is listed.
pub open spec fn found_below(args: ArgsView, below: Below) -> Found
    decreases below,
{
    match below {
        Below::Entries(forest) => found_among(args, forest),
        Below::Unreadable(failure) => Found(Err(failure)),
    }
}

/// What is found in a list of trees, one tree after the other.
pub open spec fn found_among(args: ArgsView, forest: Seq<Tree>) -> Found
    decreases forest,
{
    if forest.len() == 0 {
        Found::nothing()
    } else {
        found_in(args, forest.first()).followed_by(found_among(args, forest.drop_first()))
    }
}

/// What is found from a list of roots, each given by what listing it
/// yields, one root after the other.
pub open spec fn found_from(args: ArgsView, roots: Seq<Below>) -> Found
    decreases roots.len(),
{
    if roots.len() == 0 {
        Found::nothing()
    } else {
        found_below(args, roots.first()).followed_by(found_from(args, roots.drop_first()))
    }
}

/// The number of entries in a tree.
pub open spec fn size(tree: Tree) -> nat
    decreases tree,
{
    1 + weight_below(tree.below)
}

/// The number of entries in what a directory holds.
pub open spec fn weight_below(below: Below) -> nat
    decreases below,
{
    match below {
        Below::Entries(forest) => weight(forest),
        Below::Unreadable(_) => 0,
    }
}

/// The number of entries in a list of trees.
pub open spec fn weight(forest: Seq<Tree>) -> nat
    decreases forest,
{
    if forest.len() == 0 {
        0
    } else {
        size(forest.first()) + weight(forest.drop_first())
    }
}

/// The number of roots and of entries below them.
pub open spec fn total_weight(roots: Seq<Below>) -> nat
    decreases roots.len(),
{
    if roots.len() == 0 {
        0
    } else {
        1 + weight_below(roots.first()) + total_weight(roots.drop_first())
    }
}

/// The end of a walk whose every request for a listing is answered from the
/// trees: `pending` holds the trees of the entries that are pending, `roots`
/// what listing each remaining root yields. `fuel` bounds the number of
/// steps; without enough of it there is no result.
pub open spec fn outcome(
    args: ArgsView,
    walk: WalkView,
    pending: Seq<Tree>,
    roots: Seq<Below>,
    fuel: nat,
) -> Option<Found>
    decreases fuel,
{
    if fuel == 0 {
        None
    } else {
        let (next, done) = step(args, walk);
        match done {
            StepView::Done => Some(Found(finish(next))),
            StepView::Tested(_, _) => outcome(
                args,
                next,
                pending.drop_first(),
                roots,
                (fuel - 1) as nat,
            ),
            StepView::List(_) => if walk.pending.len() > 0 {
                let below = pending.first().below;
                outcome(
                    args,
                    enter(next, answer(below)),
                    trees(below) + pending.drop_first(),
                    roots,
                    (fuel - 1) as nat,
                )
            } else {
                let below = roots.first();
                outcome(
                    args,
                    enter(next, answer(below)),
                    trees(below),
                    roots.drop_first(),
                    (fuel - 1) as nat,
                )
            },
        }
    }
}

proof fn lemma_followed_by_associative(a: Found, b: Found, c: Found)
    ensures
        a.followed_by(b).followed_by(c) == a.followed_by(b.followed_by(c)),
{
    if let (Ok(x), Ok(y), Ok(z)) = (a.0, b.0, c.0) {
        assert((x + y) + z == x + (y + z));
    }
}

proof fn lemma_followed_by_nothing(a: Found)
    ensures
        Found::nothing().followed_by(a) == a,
        a.followed_by(Found::nothing()) == a,
{
}

proof fn lemma_found_among_concat(args: ArgsView, a: Seq<Tree>, b: Seq<Tree>)
    ensures
        found_among(args, a + b) == found_among(args, a).followed_by(found_among(args, b)),
    decreases a.len(),
{
    if a.len() == 0 {
        lemma_followed_by_nothing(found_among(args, b));
    } else {
        assert((a + b).drop_first() == a.drop_first() + b);
        lemma_found_among_concat(args, a.drop_first(), b);
        lemma_followed_by_associative(
            found_in(args, a.first()),
            found_among(args, a.drop_first()),
            found_among(args, b),
        );
    }
}

proof fn lemma_weight_concat(a: Seq<Tree>, b: Seq<Tree>)
    ensures
        weight(a + b) == weight(a) + weight(b),
    decreases a.len(),
{
    if a.len() > 0 {
        assert((a + b).drop_first() == a.drop_first() + b);
        lemma_weight_concat(a.drop_first(), b);
    }
}

/// A walk that has failed ends at its next step, with its failure.
pub proof fn lemma_failed_walk_ends(
    args: ArgsView,
    walk: WalkView,
    pending: Seq<Tree>,
    roots: Seq<Below>,
    fuel: nat,
)
    requires
        walk.failure is Some,
        fuel > 0,
    ensures
        outcome(args, walk, pending, roots, fuel) == Some(Found(Err(walk.failure->0))),
{
}

/// A walk that is answered from the trees ends. It ends with the matches it
/// had, then what is found among the pending trees, then what is found from
/// the remaining roots; or with the first failure met on the way.
pub proof fn lemma_walk_finds(
    args: ArgsView,
    walk: WalkView,
    pending: Seq<Tree>,
    roots: Seq<Below>,
    fuel: nat,
)
    requires
        walk.failure is None,
        walk.pending == listing(pending),
        walk.roots.len() == roots.len(),
        fuel > weight(pending) + total_weight(roots),
    ensures
        outcome(args, walk, pending, roots, fuel) == Some(
            Found::paths(walk.matches).followed_by(found_among(args, pending)).followed_by(
                found_from(args, roots),
            ),
        ),
    decreases fuel,
{
    let next = step(args, walk).0;
    let rest = (fuel - 1) as nat;
    let had = Found::paths(walk.matches);
    if walk.pending.len() > 0 {
        let tree = pending.first();
        let later = pending.drop_first();
        assert(walk.pending.drop_first() == listing(later));
        assert(size(tree) == 1 + weight_below(tree.below));
        if tree.entry.is_dir && args.options.recursive {
            let entered = enter(next, answer(tree.below));
            match tree.below {
                Below::Entries(below) => {
                    assert(entered.pending == listing(below + later));
                    lemma_weight_concat(below, later);
                    lemma_found_among_concat(args, below, later);
                    lemma_walk_finds(args, entered, below + later, roots, rest);
                },
                Below::Unreadable(failure) => {
                    lemma_failed_walk_ends(args, entered, trees(tree.below) + later, roots, rest);
                },
            }
        } else {
            lemma_walk_finds(args, next, later, roots, rest);
            lemma_followed_by_associative(had, found_in(args, tree), found_among(args, later));
        }
    } else if walk.roots.len() > 0 {
        lemma_followed_by_nothing(had);
        let below = roots.first();
        let later = roots.drop_first();
        let entered = enter(next, answer(below));
        match below {
            Below::Entries(forest) => {
                lemma_walk_finds(args, entered, forest, later, rest);
                lemma_followed_by_associative(
                    had,
                    found_among(args, forest),
                    found_from(args, later),
                );
            },
            Below::Unreadable(failure) => {
                lemma_failed_walk_ends(args, entered, trees(below), later, rest);
            },
        }
    } else {
        lemma_followed_by_nothing(had);
    }
}

/// A search that is answered from the trees ends with what is found from
/// its roots, in depth-first order, or with the first failure met.
pub proof fn lemma_search_finds(args: ArgsView, roots: Seq<Below>, fuel: nat)
    requires
        roots.len() == start(args).roots.len(),
        fuel > total_weight(roots),
    ensures
        outcome(args, start(args), Seq::empty(), roots, fuel) == Some(found_from(args, roots)),
{
    let none = Seq::<Tree>::empty();
    assert(listing(none) == Seq::<EntryView>::empty());
    lemma_walk_finds(args, start(args), none, roots, fuel);
    lemma_followed_by_nothing(Found::nothing());
    lemma_followed_by_nothing(found_from(args, roots));
}

/// The paths of the entries of one listing that a pattern accepts, in the
/// order of the listing.
pub open spec fn hits(args: ArgsView, entries: Seq<EntryView>) -> Seq<Seq<char>>
    decreases entries.len(),
{
    if entries.len() == 0 {
        Seq::empty()
    } else if verdict(args.patterns, entries.first().name) is Some {
        seq![entries.first().path] + hits(args, entries.drop_first())
    } else {
        hits(args, entries.drop_first())
    }
}

/// The hits of the listings of a list of roots, one root after the other,
/// up to the first root that cannot be read.
pub open spec fn hits_from(args: ArgsView, roots: Seq<Below>) -> Found
    decreases roots.len(),
{
    if roots.len() == 0 {
        Found::nothing()
    } else {
        let first = match answer(roots.first()) {
            Ok(entries) => Found::paths(hits(args, entries)),
            Err(failure) => Found(Err(failure)),
        };
        first.followed_by(hits_from(args, roots.drop_first()))
    }
}

/// Without recursion, what is found among trees is what their top entries
/// give: nothing below them counts, not even a directory that cannot be
/// read.
pub proof fn lemma_flat_found_among(args: ArgsView, forest: Seq<Tree>)
    requires
        !args.options.recursive,
    ensures
        found_among(args, forest) == Found::paths(hits(args, listing(forest))),
    decreases forest.len(),
{
    if forest.len() > 0 {
        lemma_flat_found_among(args, forest.drop_first());
        let tree = forest.first();
        assert(found_in(args, tree) == if verdict(args.patterns, tree.entry.name) is Some {
            Found::paths(seq![tree.entry.path])
        } else {
            Found::nothing()
        });
        assert(listing(forest).drop_first() == listing(forest.drop_first()));
        lemma_followed_by_nothing(found_among(args, forest.drop_first()));
    }
}

/// Without recursion, a search finds among the direct children of its roots
/// only, whatever lies below them.
pub proof fn lemma_flat_search(args: ArgsView, roots: Seq<Below>)
    requires
        !args.options.recursive,
    ensures
        found_from(args, roots) == hits_from(args, roots),
    decreases roots.len(),
{
    if roots.len() > 0 {
        if let Below::Entries(forest) = roots.first() {
            lemma_flat_found_among(args, forest);
        }
        lemma_flat_search(args, roots.drop_first());
    }
}

/// Without recursion, the only directories that a walk asks to have listed
/// are its roots: no pending entry is ever entered.
pub proof fn lemma_flat_walk_lists_roots_only(args: ArgsView, walk: WalkView)
    requires
        !args.options.recursive,
    ensures
        step(args, walk).1 matches StepView::List(path) ==> walk.pending.len() == 0
            && walk.roots.len() > 0 && path == walk.roots.first(),
{
}

/// With no pattern, no step of a walk adds a match.
pub proof fn lemma_no_pattern_no_new_match(args: ArgsView, walk: WalkView)
    requires
        args.patterns.len() == 0,
    ensures
        step(args, walk).0.matches == walk.matches,
{
}

proof fn lemma_no_pattern_found_among(args: ArgsView, forest: Seq<Tree>)
    requires
        args.patterns.len() == 0,
    ensures
        found_among(args, forest).0 matches Ok(paths) ==> paths.len() == 0,
    decreases forest,
{
    if forest.len() > 0 {
        let tree = forest.first();
        if tree.entry.is_dir && args.options.recursive {
            if let Below::Entries(below) = tree.below {
                lemma_no_pattern_found_among(args, below);
            }
        }
        lemma_no_pattern_found_among(args, forest.drop_first());
        assert(found_among(args, forest) == found_in(args, tree).followed_by(
            found_among(args, forest.drop_first()),
        ));
    }
}

/// With no pattern, a search that ends without a failure finds nothing,
/// whatever the trees hold.
pub proof fn lemma_no_pattern_no_match(args: ArgsView, roots: Seq<Below>)
    requires
        args.patterns.len() == 0,
    ensures
        found_from(args, roots).0 matches Ok(paths) ==> paths.len() == 0,
    decreases roots.len(),
{
    if roots.len() > 0 {
        if let Below::Entries(forest) = roots.first() {
            lemma_no_pattern_found_among(args, forest);
        }
        lemma_no_pattern_no_match(args, roots.drop_first());
    }
}

} // verus!
