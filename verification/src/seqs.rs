//! Sequences built element by element.

use vstd::prelude::*;

verus! {

/// The concatenation of what `f` makes of each element, in order.
pub open spec fn gather<A, B>(s: Seq<A>, f: spec_fn(A) -> Seq<B>) -> Seq<B>
    decreases s.len(),
{
    if s.len() == 0 {
        Seq::empty()
    } else {
        gather(s.drop_last(), f) + f(s.last())
    }
}

/// Gathering one element more appends what it yields.
pub proof fn gather_step<A, B>(s: Seq<A>, i: int, f: spec_fn(A) -> Seq<B>)
    requires
        0 <= i < s.len(),
    ensures
        gather(s.take(i + 1), f) == gather(s.take(i), f) + f(s[i]),
{
    assert(s.take(i + 1).drop_last() == s.take(i));
}

/// Gathering over all elements.
pub proof fn gather_whole<A, B>(s: Seq<A>, f: spec_fn(A) -> Seq<B>)
    ensures
        gather(s.take(s.len() as int), f) == gather(s, f),
        gather(s.take(0), f) == Seq::<B>::empty(),
{
    assert(s.take(s.len() as int) == s);
    assert(s.take(0) == Seq::<A>::empty());
}

/// Everything gathered comes from some element.
pub proof fn gather_source<A, B>(s: Seq<A>, f: spec_fn(A) -> Seq<B>, y: B) -> (i: int)
    requires
        gather(s, f).contains(y),
    ensures
        0 <= i < s.len(),
        f(s[i]).contains(y),
    decreases s.len(),
{
    let front = gather(s.drop_last(), f);
    let j = choose|j: int| 0 <= j < gather(s, f).len() && gather(s, f)[j] == y;
    if j < front.len() {
        assert(front[j] == y);
        let i = gather_source(s.drop_last(), f, y);
        assert(s.drop_last()[i] == s[i]);
        i
    } else {
        assert(f(s.last())[j - front.len()] == y);
        s.len() - 1
    }
}

/// What an element yields is gathered.
pub proof fn gather_includes<A, B>(s: Seq<A>, f: spec_fn(A) -> Seq<B>, i: int, y: B)
    requires
        0 <= i < s.len(),
        f(s[i]).contains(y),
    ensures
        gather(s, f).contains(y),
    decreases s.len(),
{
    let front = gather(s.drop_last(), f);
    if i == s.len() - 1 {
        let part = f(s[i]);
        let j = choose|j: int| 0 <= j < part.len() && part[j] == y;
        assert(gather(s, f)[front.len() + j] == y);
    } else {
        assert(s.drop_last()[i] == s[i]);
        gather_includes(s.drop_last(), f, i, y);
        let j = choose|j: int| 0 <= j < front.len() && front[j] == y;
        assert(gather(s, f)[j] == y);
    }
}

/// A sequence of one element when `c` holds, else none.
pub open spec fn one_if<B>(c: bool, y: B) -> Seq<B> {
    if c {
        seq![y]
    } else {
        Seq::empty()
    }
}

/// Elements are gathered from the first on.
pub proof fn gather_first<A, B>(x: A, s: Seq<A>, f: spec_fn(A) -> Seq<B>)
    ensures
        gather(seq![x] + s, f) == f(x) + gather(s, f),
    decreases s.len(),
{
    let all = seq![x] + s;
    if s.len() == 0 {
        assert(all =~= seq![x]);
        assert(all.drop_last() =~= Seq::<A>::empty());
        reveal_with_fuel(gather, 2);
        assert(gather(all, f) =~= f(x) + gather(s, f));
    } else {
        gather_first(x, s.drop_last(), f);
        assert(all.drop_last() =~= seq![x] + s.drop_last());
        assert(gather(all, f) =~= f(x) + gather(s, f));
    }
}

} // verus!
