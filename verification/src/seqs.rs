//! Facts about filtered sequences.

use vstd::prelude::*;

verus! {

/// The first `n` elements of a sequence, or all of them where there are fewer.
pub open spec fn at_most<A>(s: Seq<A>, n: nat) -> Seq<A> {
    if n <= s.len() {
        s.take(n as int)
    } else {
        s
    }
}

/// Filtering a longer prefix looks at one more element.
pub proof fn filter_next<A>(s: Seq<A>, p: spec_fn(A) -> bool, i: int)
    requires
        0 <= i < s.len(),
    ensures
        s.take(i + 1).filter(p) == if p(s[i]) {
            s.take(i).filter(p).push(s[i])
        } else {
            s.take(i).filter(p)
        },
{
    reveal(Seq::filter);
    assert(s.take(i + 1).drop_last() =~= s.take(i));
}

/// Filtering an empty prefix gives nothing.
pub proof fn filter_none<A>(s: Seq<A>, p: spec_fn(A) -> bool)
    ensures
        s.take(0).filter(p) == Seq::<A>::empty(),
{
    reveal(Seq::filter);
}

/// What filtering keeps.
pub proof fn filter_members<A>(s: Seq<A>, p: spec_fn(A) -> bool, x: A)
    ensures
        s.filter(p).contains(x) == (s.contains(x) && p(x)),
    decreases s.len(),
{
    reveal(Seq::filter);
    if s.len() > 0 {
        let front = s.drop_last();
        filter_members(front, p, x);
        let kept = front.filter(p);
        if s.filter(p).contains(x) {
            let i = s.filter(p).index_of(x);
            if i < kept.len() {
                assert(kept[i] == x);
                assert(kept.contains(x));
                let j = front.index_of(x);
                assert(s[j] == x);
            } else {
                assert(s[s.len() - 1] == x);
            }
        }
        if s.contains(x) && p(x) {
            let j = s.index_of(x);
            if j < front.len() {
                assert(front[j] == x);
                assert(front.contains(x));
                let i = kept.index_of(x);
                assert(s.filter(p)[i] == x);
            } else {
                assert(s.filter(p)[kept.len() as int] == x);
            }
        }
    }
}

/// Filtering repeats nothing.
pub proof fn filter_keeps_distinct<A>(s: Seq<A>, p: spec_fn(A) -> bool)
    requires
        s.no_duplicates(),
    ensures
        s.filter(p).no_duplicates(),
    decreases s.len(),
{
    reveal(Seq::filter);
    if s.len() > 0 {
        let front = s.drop_last();
        filter_keeps_distinct(front, p);
        filter_members(front, p, s.last());
        if front.contains(s.last()) {
            let j = front.index_of(s.last());
            assert(s[j] == s[s.len() - 1]);
        }
    }
}

/// A filtered prefix is a prefix of what is filtered.
pub proof fn filter_of_prefix<A>(s: Seq<A>, p: spec_fn(A) -> bool, i: int)
    requires
        0 <= i <= s.len(),
    ensures
        s.take(i).filter(p).len() <= s.filter(p).len(),
        s.filter(p).take(s.take(i).filter(p).len() as int) == s.take(i).filter(p),
{
    assert(s =~= s.take(i) + s.skip(i));
    Seq::filter_distributes_over_add(s.take(i), s.skip(i), p);
    assert(s.filter(p).take(s.take(i).filter(p).len() as int) =~= s.take(i).filter(p));
}

/// Filtering with predicates that agree on the elements gives the same.
pub proof fn filter_agrees<A>(s: Seq<A>, p: spec_fn(A) -> bool, q: spec_fn(A) -> bool)
    requires
        forall|i: int| 0 <= i < s.len() ==> p(#[trigger] s[i]) == q(s[i]),
    ensures
        s.filter(p) == s.filter(q),
    decreases s.len(),
{
    reveal(Seq::filter);
    if s.len() > 0 {
        let front = s.drop_last();
        assert forall|i: int| 0 <= i < front.len() implies p(#[trigger] front[i]) == q(
            front[i],
        ) by {
            assert(front[i] == s[i]);
        }
        filter_agrees(front, p, q);
        assert(p(s[s.len() - 1]) == q(s[s.len() - 1]));
    }
}

/// Filtering makes no sequence longer.
pub proof fn filter_is_no_longer<A>(s: Seq<A>, p: spec_fn(A) -> bool)
    ensures
        s.filter(p).len() <= s.len(),
    decreases s.len(),
{
    reveal(Seq::filter);
    if s.len() > 0 {
        filter_is_no_longer(s.drop_last(), p);
    }
}

/// Filtering keeps the order: of two elements that stay, the first in the sequence is the first in
/// what is left.
pub proof fn filter_keeps_order<A>(s: Seq<A>, p: spec_fn(A) -> bool, i: int, j: int) -> (r: (
    int,
    int,
))
    requires
        0 <= i < j < s.len(),
        p(s[i]),
        p(s[j]),
    ensures
        0 <= r.0 < r.1 < s.filter(p).len(),
        s.filter(p)[r.0] == s[i],
        s.filter(p)[r.1] == s[j],
{
    let to_i = s.take(i + 1).filter(p);
    let to_j = s.take(j + 1).filter(p);
    filter_next(s, p, i);
    filter_next(s, p, j);
    filter_of_prefix(s, p, i + 1);
    filter_of_prefix(s, p, j + 1);
    let upto = s.take(j);
    filter_of_prefix(upto, p, i + 1);
    assert(upto.take(i + 1) =~= s.take(i + 1));
    let a = to_i.len() - 1;
    let b = to_j.len() - 1;
    assert(s.filter(p).take(to_i.len() as int)[a] == s.filter(p)[a]);
    assert(s.filter(p).take(to_j.len() as int)[b] == s.filter(p)[b]);
    (a, b)
}

} // verus!
