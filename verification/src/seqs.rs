//! Searching a sequence for the first element with a property.

use vstd::prelude::*;

verus! {

/// An optional index as a mathematical integer.
pub open spec fn index_view(i: Option<usize>) -> Option<int> {
    match i {
        Some(i) => Some(i as int),
        None => None,
    }
}

/// Index of the first element of `s` that satisfies `p`, if there is one.
pub open spec fn first_where<T>(s: Seq<T>, p: spec_fn(T) -> bool) -> Option<int>
    decreases s.len(),
{
    if s.len() == 0 {
        None
    } else if p(s[0]) {
        Some(0)
    } else {
        match first_where(s.drop_first(), p) {
            Some(i) => Some(i + 1),
            None => None,
        }
    }
}

/// `first_where` gives the least index whose element satisfies `p`, and
/// nothing exactly when no element does.
pub proof fn lemma_first_where<T>(s: Seq<T>, p: spec_fn(T) -> bool)
    ensures
        match first_where(s, p) {
            Some(i) => 0 <= i < s.len() && p(s[i]) && forall|j: int|
                0 <= j < i ==> !p(#[trigger] s[j]),
            None => forall|j: int| 0 <= j < s.len() ==> !p(#[trigger] s[j]),
        },
    decreases s.len(),
{
    if s.len() > 0 && !p(s[0]) {
        let rest = s.drop_first();
        lemma_first_where(rest, p);
        match first_where(rest, p) {
            Some(i) => {
                assert forall|j: int| 0 <= j < i + 1 implies !p(#[trigger] s[j]) by {
                    if j > 0 {
                        assert(rest[j - 1] == s[j]);
                    }
                }
            },
            None => {
                assert forall|j: int| 0 <= j < s.len() implies !p(#[trigger] s[j]) by {
                    if j > 0 {
                        assert(rest[j - 1] == s[j]);
                    }
                }
            },
        }
    }
}

/// The least index whose element satisfies `p` is what `first_where` gives.
pub proof fn lemma_first_where_at<T>(s: Seq<T>, p: spec_fn(T) -> bool, i: int)
    requires
        0 <= i < s.len(),
        p(s[i]),
        forall|j: int| 0 <= j < i ==> !p(#[trigger] s[j]),
    ensures
        first_where(s, p) == Some(i),
{
    lemma_first_where(s, p);
}

/// Two properties that the same elements of a sequence have find the same
/// first element.
pub proof fn lemma_first_where_alike<T>(s: Seq<T>, p: spec_fn(T) -> bool, q: spec_fn(T) -> bool)
    requires
        forall|i: int| 0 <= i < s.len() ==> p(#[trigger] s[i]) == q(s[i]),
    ensures
        first_where(s, p) == first_where(s, q),
{
    lemma_first_where(s, p);
    lemma_first_where(s, q);
    match first_where(s, p) {
        Some(i) => {
            assert(q(s[i]));
            assert forall|j: int| 0 <= j < i implies !q(#[trigger] s[j]) by {
                assert(!p(s[j]));
            }
            lemma_first_where_at(s, q, i);
        },
        None => {
            assert forall|j: int| 0 <= j < s.len() implies !q(#[trigger] s[j]) by {
                assert(!p(s[j]));
            }
        },
    }
}

/// Adding an element at the end changes the search only where nothing was
/// found before.
pub proof fn lemma_first_where_push<T>(s: Seq<T>, p: spec_fn(T) -> bool, x: T)
    ensures
        first_where(s.push(x), p) == match first_where(s, p) {
            Some(i) => Some(i),
            None => if p(x) {
                Some(s.len() as int)
            } else {
                None
            },
        },
{
    let t = s.push(x);
    lemma_first_where(s, p);
    lemma_first_where(t, p);
    match first_where(s, p) {
        Some(i) => {
            assert forall|j: int| 0 <= j < i implies !p(#[trigger] t[j]) by {}
            lemma_first_where_at(t, p, i);
        },
        None => {
            assert forall|j: int| 0 <= j < s.len() implies !p(#[trigger] t[j]) by {}
            if p(x) {
                lemma_first_where_at(t, p, s.len() as int);
            } else {
                assert forall|j: int| 0 <= j < t.len() implies !p(#[trigger] t[j]) by {}
            }
        },
    }
}

} // verus!
