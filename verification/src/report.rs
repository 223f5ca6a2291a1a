//! What is printed at the end of a search.

use crate::sort::{ascending, lemma_sorted, lemma_sorted_ignores_order, sort, sorted};
use crate::walk::texts;
use vstd::prelude::*;

verus! {

/// The line for one path: a tab, then the path.
pub open spec fn line_of(path: Seq<char>) -> Seq<char> {
    "\t"@ + path
}

/// The lines that report the paths that matched: a single line where there
/// is none, else a heading and one line for each path, in ascending order.
pub open spec fn report_lines(matches: Seq<Seq<char>>) -> Seq<Seq<char>> {
    if matches.len() == 0 {
        seq!["no matches found"@]
    } else {
        seq!["matches found:"@] + sorted(matches).map_values(|path: Seq<char>| line_of(path))
    }
}

/// A report of matches is a heading and one line for each match, and the
/// paths on those lines are the paths that matched, each as often as it was
/// found, in ascending order.
pub proof fn lemma_report_is_sorted(matches: Seq<Seq<char>>)
    requires
        matches.len() > 0,
    ensures
        report_lines(matches).len() == matches.len() + 1,
        report_lines(matches)[0] == "matches found:"@,
        forall|i: int|
            0 <= i < matches.len() ==> #[trigger] report_lines(matches)[i + 1] == line_of(
                sorted(matches)[i],
            ),
        ascending(sorted(matches)),
        sorted(matches).to_multiset() == matches.to_multiset(),
{
    lemma_sorted(matches);
}

/// The report does not depend on the order in which the matches were found.
pub proof fn lemma_report_ignores_order(matches: Seq<Seq<char>>, other: Seq<Seq<char>>)
    requires
        matches.to_multiset() == other.to_multiset(),
    ensures
        report_lines(matches) == report_lines(other),
{
    lemma_sorted_ignores_order(matches, other);
    matches.to_multiset_ensures();
    other.to_multiset_ensures();
}

/// The lines that report the paths that matched, to be printed one by one.
pub fn report(matches: Vec<String>) -> (lines: Vec<String>)
    ensures
        texts(lines@) == report_lines(texts(matches@)),
{
    let ghost found = texts(matches@);
    let mut lines: Vec<String> = Vec::new();
    if matches.len() == 0 {
        lines.push("no matches found".to_owned());
        return lines;
    }
    let ordered = sort(matches);
    proof {
        lemma_sorted(found);
    }
    lines.push("matches found:".to_owned());
    let mut i: usize = 0;
    while i < ordered.len()
        invariant
            i <= ordered@.len(),
            texts(ordered@) == sorted(found),
            texts(lines@) == seq!["matches found:"@] + sorted(found).take(i as int).map_values(
                |path: Seq<char>| line_of(path),
            ),
        decreases ordered@.len() - i,
    {
        let ghost held = texts(lines@);
        let mut line = "\t".to_owned();
        line.append(ordered[i].as_str());
        lines.push(line);
        assert(texts(lines@) == held.push(line@));
        i += 1;
    }
    lines
}

} // verus!
