//! Persistent lists. A list is a plain value: two lists with the same
//! elements are equal, which makes them usable inside routes and steps.

use crate::value::Value;
use vstd::prelude::*;

verus! {

/// A singly linked list.
#[derive(Debug, PartialEq, Eq)]
pub enum List<T> {
    Nil,
    Cons(T, Box<List<T>>),
}

impl<T> List<T> {
    /// The elements in order.
    pub open spec fn seq(self) -> Seq<T>
        decreases self,
    {
        match self {
            List::Nil => Seq::empty(),
            List::Cons(x, rest) => seq![x] + rest.seq(),
        }
    }

    /// The list holding exactly `s`.
    pub open spec fn of(s: Seq<T>) -> List<T>
        decreases s.len(),
    {
        if s.len() == 0 {
            List::Nil
        } else {
            List::Cons(s[0], Box::new(List::of(s.drop_first())))
        }
    }

    /// A list is determined by its elements.
    pub proof fn of_seq(self)
        ensures
            List::of(self.seq()) == self,
        decreases self,
    {
        match self {
            List::Nil => {},
            List::Cons(x, rest) => {
                rest.of_seq();
                assert(self.seq().drop_first() == rest.seq());
            },
        }
    }

    /// `of` keeps the elements.
    pub proof fn seq_of(s: Seq<T>)
        ensures
            List::of(s).seq() == s,
        decreases s.len(),
    {
        if s.len() > 0 {
            List::seq_of(s.drop_first());
            assert(seq![s[0]] + s.drop_first() == s);
        }
    }

    /// Builds a list from a vector.
    pub fn from_vec(v: Vec<T>) -> (r: List<T>)
        ensures
            r == List::of(v@),
            r.seq() == v@,
    {
        let ghost all = v@;
        let mut rest: Vec<T> = v;
        let mut out: List<T> = List::Nil;
        assert(all.skip(all.len() as int) == Seq::<T>::empty());
        while rest.len() > 0
            invariant
                rest@.len() <= all.len(),
                rest@ == all.take(rest@.len() as int),
                out.seq() == all.skip(rest@.len() as int),
            decreases rest@.len(),
        {
            let ghost n = rest@.len() as int;
            if let Some(x) = rest.pop() {
                out = List::Cons(x, Box::new(out));
                assert(rest@ == all.take(n - 1));
                assert(seq![all[n - 1]] + all.skip(n) == all.skip(n - 1));
            }
        }
        assert(all.skip(0) == all);
        proof {
            out.of_seq();
        }
        out
    }

    /// Whether the list has no element.
    pub fn is_empty(&self) -> (b: bool)
        ensures
            b == (self.seq().len() == 0),
    {
        match self {
            List::Nil => true,
            List::Cons(_, _) => false,
        }
    }
}

impl<T> List<T> {
    /// The list with one element more at its end.
    pub open spec fn appended(self, x: T) -> List<T> {
        List::of(self.seq().push(x))
    }
}

impl<T: Value> List<T> {
    /// The list with one element more at its end.
    pub fn append(&self, x: T) -> (r: List<T>)
        ensures
            r == self.appended(x),
    {
        let mut v = self.to_vec();
        v.push(x);
        List::from_vec(v)
    }

    /// The elements as a vector.
    pub fn to_vec(&self) -> (r: Vec<T>)
        ensures
            r@ == self.seq(),
    {
        let mut r: Vec<T> = Vec::new();
        let mut cur: &List<T> = self;
        loop
            invariant_except_break
                r@ + cur.seq() == self.seq(),
            ensures
                r@ == self.seq(),
            decreases *cur,
        {
            match cur {
                List::Nil => {
                    assert(r@ + Seq::<T>::empty() == r@);
                    break;
                },
                List::Cons(x, rest) => {
                    let ghost before = r@;
                    r.push(x.dup());
                    assert(before.push(*x) + rest.seq() == before + (seq![*x] + rest.seq()));
                    cur = rest;
                },
            }
        }
        r
    }

    /// Whether `x` is an element.
    pub fn contains(&self, x: &T) -> (b: bool)
        ensures
            b == self.seq().contains(*x),
        decreases *self,
    {
        match self {
            List::Nil => false,
            List::Cons(y, rest) => {
                let head: bool = y.same(x);
                let tail: bool = rest.contains(x);
                proof {
                    let s = seq![*y] + rest.seq();
                    if head {
                        assert(s[0] == *x);
                    }
                    if tail {
                        let i = choose|i: int| 0 <= i < rest.seq().len() && rest.seq()[i] == *x;
                        assert(s[i + 1] == *x);
                    }
                    if s.contains(*x) {
                        let i = choose|i: int| 0 <= i < s.len() && s[i] == *x;
                        if i > 0 {
                            assert(rest.seq()[i - 1] == *x);
                        }
                    }
                }
                head || tail
            },
        }
    }
}

impl<T: Value> Value for List<T> {
    fn dup(&self) -> (r: Self)
        decreases *self,
    {
        match self {
            List::Nil => List::Nil,
            List::Cons(x, rest) => {
                let tail: List<T> = (**rest).dup();
                List::Cons(x.dup(), Box::new(tail))
            },
        }
    }

    fn same(&self, other: &Self) -> (b: bool)
        decreases *self,
    {
        match (self, other) {
            (List::Nil, List::Nil) => true,
            (List::Cons(x, r1), List::Cons(y, r2)) => x.same(y) && (**r1).same(&**r2),
            _ => false,
        }
    }
}

} // verus!
