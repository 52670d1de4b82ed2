//! Shared sequence lemmas used by several modules.

use vstd::prelude::*;
use vstd::seq_lib::*;

verus! {

/// Filtering a sequence extended by one element keeps the filtered
/// prefix and appends the element exactly when it satisfies the
/// predicate.
pub proof fn lemma_filter_push<A>(s: Seq<A>, x: A, pred: spec_fn(A) -> bool)
    ensures
        s.push(x).filter(pred) == (if pred(x) {
            s.filter(pred).push(x)
        } else {
            s.filter(pred)
        }),
{
    reveal(Seq::filter);
    assert(s.push(x).drop_last() =~= s);
}

/// Removing an element and inserting another at the same position is a
/// point update.
pub proof fn lemma_remove_insert_update<A>(s: Seq<A>, i: int, x: A)
    requires
        0 <= i < s.len(),
    ensures
        s.remove(i).insert(i, x) == s.update(i, x),
{
    s.remove_ensures(i);
    s.remove(i).insert_ensures(i, x);
    let lhs = s.remove(i).insert(i, x);
    assert forall|y: int| 0 <= y < s.len() implies lhs[y] == s.update(i, x)[y] by {
        if y > i {
            assert(s.remove(i).insert(i, x)[(y - 1) + 1] == s.remove(i)[y - 1]);
            assert(s.remove(i)[y - 1] == s[(y - 1) + 1]);
        }
    }
    assert(lhs =~= s.update(i, x));
}

/// Mapping string views over a push appends the pushed string's view.
pub proof fn lemma_views_push(s: Seq<String>, x: String)
    ensures
        (s.push(x)).map_values(|t: String| t@) == s.map_values(|t: String| t@).push(x@),
{
    let lhs = (s.push(x)).map_values(|t: String| t@);
    let rhs = s.map_values(|t: String| t@).push(x@);
    assert forall|j: int| 0 <= j < lhs.len() implies lhs[j] == rhs[j] by {
        assert(lhs[j] == s.push(x)[j]@);
        if j < s.len() {
            assert(rhs[j] == s.map_values(|t: String| t@)[j]);
            assert(s.map_values(|t: String| t@)[j] == s[j]@);
        }
    }
    assert(lhs =~= rhs);
}

/// The pair-view version of `lemma_views_push`.
pub proof fn lemma_pair_views_push(s: Seq<(String, String)>, x: (String, String))
    ensures
        (s.push(x)).map_values(|e: (String, String)| (e.0@, e.1@)) == s.map_values(
            |e: (String, String)| (e.0@, e.1@),
        ).push((x.0@, x.1@)),
{
    let f = |e: (String, String)| (e.0@, e.1@);
    let lhs = (s.push(x)).map_values(f);
    let rhs = s.map_values(f).push((x.0@, x.1@));
    assert forall|j: int| 0 <= j < lhs.len() implies lhs[j] == rhs[j] by {
        assert(lhs[j] == f(s.push(x)[j]));
        if j < s.len() {
            assert(rhs[j] == s.map_values(f)[j]);
            assert(s.map_values(f)[j] == f(s[j]));
        }
    }
    assert(lhs =~= rhs);
}

} // verus!
