//! The order of paths: by their UTF-8 bytes, as `str` compares.

use crate::text::{bytes_of, lemma_bytes_injective};
use crate::walk::texts;
use vstd::prelude::*;
use vstd::relations::{sorted_by, total_ordering};
use vstd::seq_lib::{lemma_multiset_commutative, lemma_sorted_unique};

verus! {

/// `a` comes no later than `b` when bytes are compared one by one from the
/// front: the first byte that differs decides, and a prefix comes first.
pub open spec fn bytes_le(a: Seq<u8>, b: Seq<u8>) -> bool
    decreases a.len(),
{
    if a.len() == 0 {
        true
    } else if b.len() == 0 {
        false
    } else if a[0] != b[0] {
        a[0] < b[0]
    } else {
        bytes_le(a.drop_first(), b.drop_first())
    }
}

/// The order of two texts is that of their UTF-8 bytes.
pub open spec fn text_le(a: Seq<char>, b: Seq<char>) -> bool {
    bytes_le(bytes_of(a), bytes_of(b))
}

/// `text_le` as a relation.
pub open spec fn by_bytes() -> spec_fn(Seq<char>, Seq<char>) -> bool {
    |a: Seq<char>, b: Seq<char>| text_le(a, b)
}

/// No path comes before an earlier one.
pub open spec fn ascending(paths: Seq<Seq<char>>) -> bool {
    forall|i: int, j: int| 0 <= i < j < paths.len() ==> text_le(paths[i], paths[j])
}

/// The paths in ascending order.
pub open spec fn sorted(paths: Seq<Seq<char>>) -> Seq<Seq<char>> {
    paths.sort_by(by_bytes())
}

proof fn lemma_bytes_le_reflexive(a: Seq<u8>)
    ensures
        bytes_le(a, a),
    decreases a.len(),
{
    if a.len() > 0 {
        lemma_bytes_le_reflexive(a.drop_first());
    }
}

proof fn lemma_bytes_le_total(a: Seq<u8>, b: Seq<u8>)
    ensures
        bytes_le(a, b) || bytes_le(b, a),
    decreases a.len(),
{
    if a.len() > 0 && b.len() > 0 && a[0] == b[0] {
        lemma_bytes_le_total(a.drop_first(), b.drop_first());
    }
}

proof fn lemma_bytes_le_antisymmetric(a: Seq<u8>, b: Seq<u8>)
    requires
        bytes_le(a, b),
        bytes_le(b, a),
    ensures
        a == b,
    decreases a.len(),
{
    if a.len() > 0 && b.len() > 0 {
        lemma_bytes_le_antisymmetric(a.drop_first(), b.drop_first());
        assert(b =~= seq![b[0]] + b.drop_first());
    }
}

proof fn lemma_bytes_le_transitive(a: Seq<u8>, b: Seq<u8>, c: Seq<u8>)
    requires
        bytes_le(a, b),
        bytes_le(b, c),
    ensures
        bytes_le(a, c),
    decreases a.len(),
{
    if a.len() > 0 && b.len() > 0 && c.len() > 0 && a[0] == b[0] && b[0] == c[0] {
        lemma_bytes_le_transitive(a.drop_first(), b.drop_first(), c.drop_first());
    }
}

/// The order of texts is total: any two texts compare, and two that compare
/// both ways are one text.
pub proof fn lemma_text_le_total_ordering()
    ensures
        total_ordering(by_bytes()),
{
    let r = by_bytes();
    assert forall|x: Seq<char>| #[trigger] r(x, x) by {
        lemma_bytes_le_reflexive(bytes_of(x));
    }
    assert forall|x: Seq<char>, y: Seq<char>| #[trigger] r(x, y) && #[trigger] r(y, x) implies x
        == y by {
        lemma_bytes_le_antisymmetric(bytes_of(x), bytes_of(y));
        lemma_bytes_injective(x, y);
    }
    assert forall|x: Seq<char>, y: Seq<char>, z: Seq<char>| #[trigger] r(x, y) && #[trigger] r(
        y,
        z,
    ) implies r(x, z) by {
        lemma_bytes_le_transitive(bytes_of(x), bytes_of(y), bytes_of(z));
    }
    assert forall|x: Seq<char>, y: Seq<char>| #[trigger] r(x, y) || #[trigger] r(y, x) by {
        lemma_bytes_le_total(bytes_of(x), bytes_of(y));
    }
}

/// Sorting keeps every path, as often as it occurs, and leaves the paths in
/// ascending order.
pub proof fn lemma_sorted(paths: Seq<Seq<char>>)
    ensures
        ascending(sorted(paths)),
        sorted(paths).to_multiset() == paths.to_multiset(),
        sorted(paths).len() == paths.len(),
{
    lemma_text_le_total_ordering();
    paths.lemma_sort_by_ensures(by_bytes());
    let out = sorted(paths);
    assert forall|i: int, j: int| 0 <= i < j < out.len() implies text_le(out[i], out[j]) by {
        assert(by_bytes()(out[i], out[j]));
    }
    paths.to_multiset_ensures();
    out.to_multiset_ensures();
}

/// There is one way only to put paths in ascending order.
pub proof fn lemma_sorted_is_unique(paths: Seq<Seq<char>>, ordered: Seq<Seq<char>>)
    requires
        ascending(ordered),
        ordered.to_multiset() == paths.to_multiset(),
    ensures
        ordered == sorted(paths),
{
    lemma_text_le_total_ordering();
    paths.lemma_sort_by_ensures(by_bytes());
    assert(sorted_by(ordered, by_bytes())) by {
        assert forall|i: int, j: int| 0 <= i < j < ordered.len() implies #[trigger] by_bytes()(
            ordered[i],
            ordered[j],
        ) by {
        }
    }
    lemma_sorted_unique(ordered, sorted(paths), by_bytes());
}

/// The sorted list does not depend on the order in which the paths were
/// found.
pub proof fn lemma_sorted_ignores_order(found: Seq<Seq<char>>, other: Seq<Seq<char>>)
    requires
        found.to_multiset() == other.to_multiset(),
    ensures
        sorted(found) == sorted(other),
{
    lemma_sorted(found);
    lemma_sorted_is_unique(other, sorted(found));
}

/// Whether `a` comes no later than `b`.
pub fn str_le(a: &str, b: &str) -> (le: bool)
    ensures
        le == text_le(a@, b@),
{
    let x = a.as_bytes();
    let y = b.as_bytes();
    let mut i: usize = 0;
    proof {
        assert(x@.skip(0) == x@);
        assert(y@.skip(0) == y@);
    }
    loop
        invariant
            i <= x@.len(),
            i <= y@.len(),
            x@ == bytes_of(a@),
            y@ == bytes_of(b@),
            bytes_le(x@, y@) == bytes_le(x@.skip(i as int), y@.skip(i as int)),
        decreases x@.len() - i,
    {
        if i == x.len() {
            return true;
        }
        if i == y.len() {
            return false;
        }
        if x[i] != y[i] {
            return x[i] < y[i];
        }
        proof {
            assert(x@.skip(i as int).drop_first() == x@.skip(i + 1));
            assert(y@.skip(i as int).drop_first() == y@.skip(i + 1));
        }
        i += 1;
    }
}

/// Merges two ascending lists into one.
fn merge(left: &Vec<String>, right: &Vec<String>) -> (out: Vec<String>)
    requires
        ascending(texts(left@)),
        ascending(texts(right@)),
    ensures
        ascending(texts(out@)),
        texts(out@).to_multiset() == texts(left@).to_multiset().add(texts(right@).to_multiset()),
{
    let ghost l = texts(left@);
    let ghost r = texts(right@);
    let mut out: Vec<String> = Vec::new();
    let mut i: usize = 0;
    let mut j: usize = 0;
    proof {
        lemma_text_le_total_ordering();
        assert(r.take(0) == Seq::<Seq<char>>::empty());
        assert(texts(out@) == Seq::<Seq<char>>::empty());
        l.take(0).to_multiset_ensures();
    }
    while i < left.len() || j < right.len()
        invariant
            i <= left@.len(),
            j <= right@.len(),
            l == texts(left@),
            r == texts(right@),
            ascending(l),
            ascending(r),
            total_ordering(by_bytes()),
            ascending(texts(out@)),
            texts(out@).to_multiset() == l.take(i as int).to_multiset().add(
                r.take(j as int).to_multiset(),
            ),
            forall|k: int, m: int|
                0 <= k < out@.len() && i <= m < l.len() ==> text_le(texts(out@)[k], l[m]),
            forall|k: int, m: int|
                0 <= k < out@.len() && j <= m < r.len() ==> text_le(texts(out@)[k], r[m]),
        decreases left@.len() - i + right@.len() - j,
    {
        let ghost held = texts(out@);
        let from_left = if i == left.len() {
            false
        } else if j == right.len() {
            true
        } else {
            str_le(left[i].as_str(), right[j].as_str())
        };
        if from_left {
            let ghost x = l[i as int];
            out.push(left[i].clone());
            proof {
                assert(texts(out@) == held.push(x));
                assert(l.take(i + 1) == l.take(i as int).push(x));
                vstd::seq_lib::to_multiset_build(held, x);
                vstd::seq_lib::to_multiset_build(l.take(i as int), x);
                assert forall|m: int| j <= m < r.len() implies text_le(x, r[m]) by {
                    assert(by_bytes()(x, r[j as int]));
                    if m > j {
                        assert(by_bytes()(r[j as int], r[m]));
                    }
                }
                assert forall|m: int| i + 1 <= m < l.len() implies text_le(x, l[m]) by {}
            }
            i += 1;
        } else {
            let ghost x = r[j as int];
            out.push(right[j].clone());
            proof {
                assert(texts(out@) == held.push(x));
                assert(r.take(j + 1) == r.take(j as int).push(x));
                vstd::seq_lib::to_multiset_build(held, x);
                vstd::seq_lib::to_multiset_build(r.take(j as int), x);
                assert forall|m: int| i <= m < l.len() implies text_le(x, l[m]) by {
                    assert(by_bytes()(x, l[i as int]) || by_bytes()(l[i as int], x));
                    if m > i {
                        assert(by_bytes()(l[i as int], l[m]));
                    }
                }
                assert forall|m: int| j + 1 <= m < r.len() implies text_le(x, r[m]) by {}
            }
            j += 1;
        }
    }
    proof {
        assert(l.take(i as int) == l);
        assert(r.take(j as int) == r);
    }
    out
}

/// Puts the paths in ascending order.
pub fn sort(paths: Vec<String>) -> (out: Vec<String>)
    ensures
        texts(out@) == sorted(texts(paths@)),
    decreases paths@.len(),
{
    let ghost all = texts(paths@);
    if paths.len() <= 1 {
        proof {
            lemma_sorted_is_unique(all, all);
        }
        return paths;
    }
    let mut left = paths;
    let at = left.len() / 2;
    let right = left.split_off(at);
    proof {
        assert(all == texts(left@) + texts(right@));
        lemma_multiset_commutative(texts(left@), texts(right@));
        lemma_sorted(texts(left@));
        lemma_sorted(texts(right@));
    }
    let left = sort(left);
    let right = sort(right);
    let out = merge(&left, &right);
    proof {
        lemma_sorted_is_unique(all, texts(out@));
    }
    out
}

} // verus!
