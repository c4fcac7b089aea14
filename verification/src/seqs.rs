//! Facts about sequences that the table queries rest on.
use vstd::prelude::*;

verus! {

/// The first element of `s` that satisfies `p`, if any.
pub open spec fn first<T>(s: Seq<T>, p: spec_fn(T) -> bool) -> Option<T> {
    let f = s.filter(p);
    if f.len() > 0 {
        Some(f[0])
    } else {
        None
    }
}

/// When no element satisfies `p`, filtering keeps nothing.
pub proof fn lemma_filter_none<T>(s: Seq<T>, p: spec_fn(T) -> bool)
    requires
        forall|j: int| 0 <= j < s.len() ==> !p(#[trigger] s[j]),
    ensures
        s.filter(p) == Seq::<T>::empty(),
    decreases s.len(),
{
    reveal(Seq::filter);
    if s.len() > 0 {
        let rest = s.drop_last();
        assert forall|j: int| 0 <= j < rest.len() implies !p(#[trigger] rest[j]) by {
            assert(rest[j] == s[j]);
        }
        lemma_filter_none(rest, p);
        assert(!p(s[s.len() - 1]));
    }
    assert(s.filter(p) =~= Seq::<T>::empty());
}

/// When exactly the element at `i` satisfies `p`, filtering keeps just it.
pub proof fn lemma_filter_single<T>(s: Seq<T>, p: spec_fn(T) -> bool, i: int)
    requires
        0 <= i < s.len(),
        p(s[i]),
        forall|j: int| 0 <= j < s.len() && j != i ==> !p(#[trigger] s[j]),
    ensures
        s.filter(p) == seq![s[i]],
    decreases s.len(),
{
    reveal(Seq::filter);
    let rest = s.drop_last();
    if i == s.len() - 1 {
        assert forall|j: int| 0 <= j < rest.len() implies !p(#[trigger] rest[j]) by {
            assert(rest[j] == s[j]);
        }
        lemma_filter_none(rest, p);
        assert(s.filter(p) =~= seq![s[i]]);
    } else {
        assert forall|j: int| 0 <= j < rest.len() && j != i implies !p(#[trigger] rest[j]) by {
            assert(rest[j] == s[j]);
        }
        assert(rest[i] == s[i]);
        lemma_filter_single(rest, p, i);
        assert(!p(s[s.len() - 1]));
        assert(s.filter(p) =~= seq![s[i]]);
    }
}

/// Filtering one more element of a prefix.
pub proof fn lemma_filter_take_succ<T>(s: Seq<T>, p: spec_fn(T) -> bool, i: int)
    requires
        0 <= i < s.len(),
    ensures
        s.take(i + 1).filter(p) == if p(s[i]) {
            s.take(i).filter(p).push(s[i])
        } else {
            s.take(i).filter(p)
        },
{
    assert(s.take(i + 1) =~= s.take(i).push(s[i]));
    s.take(i).lemma_filter_push(s[i], p);
}

/// When no element before `i` satisfies `p` and `s[i]` does, `s[i]` is the first.
pub proof fn lemma_first_at<T>(s: Seq<T>, p: spec_fn(T) -> bool, i: int)
    requires
        0 <= i < s.len(),
        s.take(i).filter(p).len() == 0,
        p(s[i]),
    ensures
        first(s, p) == Some(s[i]),
{
    lemma_filter_take_succ(s, p, i);
    let head = s.take(i + 1);
    let tail = s.skip(i + 1);
    assert(s =~= head + tail);
    Seq::filter_distributes_over_add(head, tail, p);
    assert(head.filter(p) =~= seq![s[i]]);
}

/// When no element of the whole sequence satisfies `p`, there is no first.
pub proof fn lemma_first_none<T>(s: Seq<T>, p: spec_fn(T) -> bool)
    requires
        s.take(s.len() as int).filter(p).len() == 0,
    ensures
        first(s, p) is None,
{
    assert(s.take(s.len() as int) =~= s);
}

/// Filtering a mapped sequence is mapping the filtered sequence, when the
/// predicate on mapped elements agrees with the predicate on the originals.
pub proof fn lemma_filter_map_values<T, U>(s: Seq<T>, p: spec_fn(T) -> bool, q: spec_fn(U) -> bool, f: spec_fn(T) -> U)
    requires
        forall|x: T| #[trigger] q(f(x)) == p(x),
    ensures
        s.map_values(f).filter(q) == s.filter(p).map_values(f),
    decreases s.len(),
{
    reveal(Seq::filter);
    if s.len() == 0 {
        assert(s.map_values(f).filter(q) =~= s.filter(p).map_values(f));
    } else {
        let t = s.map_values(f);
        assert(t.drop_last() =~= s.drop_last().map_values(f));
        lemma_filter_map_values(s.drop_last(), p, q, f);
        assert(q(t.last()) == p(s.last()));
        let prev = s.drop_last().filter(p);
        assert(prev.push(s.last()).map_values(f) =~= prev.map_values(f).push(f(s.last())));
    }
}

/// The first of a mapped sequence is the mapped first, when the predicates
/// agree as above.
pub proof fn lemma_first_map_values<T, U>(s: Seq<T>, p: spec_fn(T) -> bool, q: spec_fn(U) -> bool, f: spec_fn(T) -> U)
    requires
        forall|x: T| #[trigger] q(f(x)) == p(x),
    ensures
        first(s.map_values(f), q) == match first(s, p) {
            Some(x) => Some(f(x)),
            None => None,
        },
{
    lemma_filter_map_values(s, p, q, f);
}


} // verus!
