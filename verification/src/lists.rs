//! Facts about finite sequences that the rest of the library states its
//! contracts with: the first position satisfying a predicate, the elements
//! satisfying one, and the first position of a string.
use vstd::prelude::*;

verus! {

/// The first position in `s` whose element satisfies `p`.
pub open spec fn first_where<T>(s: Seq<T>, p: spec_fn(T) -> bool) -> Option<int>
    decreases s.len(),
{
    if s.len() == 0 {
        None
    } else {
        match first_where(s.drop_last(), p) {
            Some(i) => Some(i),
            None => if p(s.last()) {
                Some(s.len() - 1)
            } else {
                None
            },
        }
    }
}

/// The elements of `s` that satisfy `p`, in order.
pub open spec fn keep<T>(s: Seq<T>, p: spec_fn(T) -> bool) -> Seq<T>
    decreases s.len(),
{
    if s.len() == 0 {
        s
    } else if p(s.last()) {
        keep(s.drop_last(), p).push(s.last())
    } else {
        keep(s.drop_last(), p)
    }
}

pub proof fn lemma_first_where<T>(s: Seq<T>, p: spec_fn(T) -> bool)
    ensures
        match first_where(s, p) {
            Some(i) => 0 <= i < s.len() && p(s[i]) && forall|j: int| 0 <= j < i ==> !p(s[j]),
            None => forall|j: int| 0 <= j < s.len() ==> !p(s[j]),
        },
    decreases s.len(),
{
    if s.len() > 0 {
        let d = s.drop_last();
        lemma_first_where(d, p);
        assert forall|j: int| 0 <= j < d.len() implies d[j] == s[j] by {}
    }
}

/// A hit in a prefix is the hit in the whole.
pub proof fn lemma_first_where_prefix<T>(s: Seq<T>, p: spec_fn(T) -> bool, n: int)
    requires
        0 <= n <= s.len(),
        first_where(s.take(n), p) is Some,
    ensures
        first_where(s, p) == first_where(s.take(n), p),
    decreases s.len() - n,
{
    if n < s.len() {
        assert(s.take(n + 1).drop_last() =~= s.take(n));
        lemma_first_where_prefix(s, p, n + 1);
    } else {
        assert(s.take(n) =~= s);
    }
}

/// The first position of `a` in `w`.
pub open spec fn index_of(w: Seq<Seq<char>>, a: Seq<char>) -> Option<int>
    decreases w.len(),
{
    if w.len() == 0 {
        None
    } else {
        match index_of(w.drop_last(), a) {
            Some(i) => Some(i),
            None => if w.last() == a {
                Some(w.len() - 1)
            } else {
                None
            },
        }
    }
}

pub proof fn lemma_index_of(w: Seq<Seq<char>>, a: Seq<char>)
    ensures
        match index_of(w, a) {
            Some(i) => 0 <= i < w.len() && w[i] == a && forall|j: int| 0 <= j < i ==> w[j] != a,
            None => forall|j: int| 0 <= j < w.len() ==> w[j] != a,
        },
    decreases w.len(),
{
    if w.len() > 0 {
        let d = w.drop_last();
        lemma_index_of(d, a);
        assert forall|j: int| 0 <= j < d.len() implies d[j] == w[j] by {}
    }
}

/// A hit in a prefix is the hit in the whole.
pub proof fn lemma_index_prefix(w: Seq<Seq<char>>, a: Seq<char>, n: int)
    requires
        0 <= n <= w.len(),
        index_of(w.take(n), a) is Some,
    ensures
        index_of(w, a) == index_of(w.take(n), a),
    decreases w.len() - n,
{
    if n < w.len() {
        assert(w.take(n + 1).drop_last() =~= w.take(n));
        lemma_index_prefix(w, a, n + 1);
    } else {
        assert(w.take(n) =~= w);
    }
}


/// What `keep` keeps was in `s` and satisfies `p`.
pub proof fn lemma_keep_subset<T>(s: Seq<T>, p: spec_fn(T) -> bool, x: T)
    ensures
        keep(s, p).contains(x) ==> s.contains(x) && p(x),
    decreases s.len(),
{
    if s.len() > 0 {
        let d = s.drop_last();
        lemma_keep_subset(d, p, x);
        if keep(s, p).contains(x) {
            if p(s.last()) {
                let k = keep(d, p);
                let i = choose|i: int| 0 <= i < keep(s, p).len() && keep(s, p)[i] == x;
                if i < k.len() {
                    assert(k[i] == x);
                    let j = choose|j: int| 0 <= j < d.len() && d[j] == x;
                    assert(s[j] == x);
                } else {
                    assert(s[s.len() - 1] == x);
                }
            } else {
                let j = choose|j: int| 0 <= j < d.len() && d[j] == x;
                assert(s[j] == x);
            }
        }
    }
}

/// Keeping some elements of a list without repeats leaves no repeats.
pub proof fn lemma_keep_no_duplicates<T>(s: Seq<T>, p: spec_fn(T) -> bool)
    requires
        s.no_duplicates(),
    ensures
        keep(s, p).no_duplicates(),
    decreases s.len(),
{
    if s.len() > 0 {
        let d = s.drop_last();
        assert(d.no_duplicates()) by {
            assert forall|i: int, j: int| 0 <= i < d.len() && 0 <= j < d.len() && i != j implies d[i] != d[j] by {
                assert(d[i] == s[i] && d[j] == s[j]);
            }
        }
        lemma_keep_no_duplicates(d, p);
        if p(s.last()) {
            let k = keep(d, p);
            lemma_keep_subset(d, p, s.last());
            if d.contains(s.last()) {
                let j = choose|j: int| 0 <= j < d.len() && d[j] == s.last();
                assert(s[j] == s[s.len() - 1]);
            }
            assert forall|i: int, j: int| 0 <= i < k.push(s.last()).len() && 0 <= j < k.push(s.last()).len() && i != j implies k.push(s.last())[i] != k.push(s.last())[j] by {
                if i < k.len() && j < k.len() {
                } else if i < k.len() {
                    assert(k.contains(k[i]));
                } else if j < k.len() {
                    assert(k.contains(k[j]));
                }
            }
        }
    }
}

} // verus!
