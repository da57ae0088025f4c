//! Stable sorting by a rank of the items' own.

use vstd::prelude::*;

verus! {

/// Items that can be put in order.
pub trait Ranked: Sized {
    /// `self` belongs strictly before `other`.
    spec fn precedes(self, other: Self) -> bool;

    fn is_before(&self, other: &Self) -> (r: bool)
        ensures
            r == self.precedes(*other),
    ;
}

/// `s` with `x` put in behind the last item that `x` does not precede.
pub open spec fn placed<T: Ranked>(s: Seq<T>, x: T) -> Seq<T>
    decreases s.len(),
{
    if s.len() == 0 || !x.precedes(s.last()) {
        s.push(x)
    } else {
        placed(s.drop_last(), x).push(s.last())
    }
}

/// The items of `s` in order, items of equal rank as they came.
pub open spec fn ranked<T: Ranked>(s: Seq<T>) -> Seq<T>
    decreases s.len(),
{
    if s.len() == 0 {
        s
    } else {
        placed(ranked(s.drop_last()), s.last())
    }
}

/// No item stands before one that precedes it.
pub open spec fn in_order<T: Ranked>(s: Seq<T>) -> bool {
    forall|i: int, j: int| 0 <= i < j < s.len() ==> !#[trigger] s[j].precedes(#[trigger] s[i])
}

/// `precedes` is a strict weak order.
pub open spec fn is_weak_order<T: Ranked>() -> bool {
    &&& forall|a: T, b: T| #[trigger] a.precedes(b) ==> !b.precedes(a)
    &&& forall|a: T, b: T, c: T|
        #![trigger a.precedes(b), b.precedes(c)]
        !a.precedes(b) && !b.precedes(c) ==> !a.precedes(c)
}

proof fn lemma_placed_len<T: Ranked>(s: Seq<T>, x: T)
    ensures
        placed(s, x).len() == s.len() + 1,
    decreases s.len(),
{
    if s.len() == 0 || !x.precedes(s.last()) {
    } else {
        lemma_placed_len(s.drop_last(), x);
    }
}

/// Sorting neither loses nor adds an item.
pub proof fn law_ranked_same_items<T: Ranked>(s: Seq<T>)
    ensures
        ranked(s).to_multiset() =~= s.to_multiset(),
        ranked(s).len() == s.len(),
    decreases s.len(),
{
    broadcast use vstd::seq_lib::group_to_multiset_ensures;

    if s.len() > 0 {
        law_ranked_same_items(s.drop_last());
        lemma_placed_items(ranked(s.drop_last()), s.last());
        assert(s =~= s.drop_last().push(s.last()));
    }
}

proof fn lemma_placed_items<T: Ranked>(s: Seq<T>, x: T)
    ensures
        placed(s, x).to_multiset() =~= s.to_multiset().insert(x),
        placed(s, x).len() == s.len() + 1,
    decreases s.len(),
{
    broadcast use vstd::seq_lib::group_to_multiset_ensures;

    if s.len() == 0 || !x.precedes(s.last()) {
    } else {
        lemma_placed_items(s.drop_last(), x);
        assert(s =~= s.drop_last().push(s.last()));
    }
}

/// Sorting by a strict weak order leaves no item before one that precedes it.
pub proof fn law_ranked_in_order<T: Ranked>(s: Seq<T>)
    requires
        is_weak_order::<T>(),
    ensures
        in_order(ranked(s)),
    decreases s.len(),
{
    if s.len() > 0 {
        law_ranked_in_order(s.drop_last());
        lemma_placed_in_order(ranked(s.drop_last()), s.last());
    }
}

proof fn lemma_placed_in_order<T: Ranked>(s: Seq<T>, x: T)
    requires
        is_weak_order::<T>(),
        in_order(s),
    ensures
        in_order(placed(s, x)),
        forall|y: T|
            (forall|i: int| 0 <= i < s.len() ==> !#[trigger] y.precedes(s[i])) && !y.precedes(x)
                ==> forall|i: int| 0 <= i < placed(s, x).len() ==> !#[trigger] y.precedes(placed(s, x)[i]),
    decreases s.len(),
{
    if s.len() == 0 || !x.precedes(s.last()) {
        let t = s.push(x);
        assert forall|i: int, j: int| 0 <= i < j < t.len() implies !#[trigger] t[j].precedes(
            #[trigger] t[i],
        ) by {
            if j == s.len() {
                if i < s.len() - 1 {
                    assert(!s.last().precedes(s[i]));
                    assert(!x.precedes(s.last()));
                }
            } else {
                assert(!s[j].precedes(s[i]));
            }
        }
    } else {
        let init = s.drop_last();
        let last = s.last();
        assert(in_order(init)) by {
            assert forall|i: int, j: int| 0 <= i < j < init.len() implies !#[trigger] init[j].precedes(
                #[trigger] init[i],
            ) by {
                assert(!s[j].precedes(s[i]));
            }
        }
        lemma_placed_in_order(init, x);
        lemma_placed_len(init, x);
        let t = placed(init, x);
        assert(forall|i: int| 0 <= i < init.len() ==> !#[trigger] last.precedes(init[i])) by {
            assert forall|i: int| 0 <= i < init.len() implies !#[trigger] last.precedes(init[i]) by {
                assert(!s[s.len() - 1].precedes(s[i]));
            }
        }
        assert(!last.precedes(x));
        assert(forall|i: int| 0 <= i < t.len() ==> !#[trigger] last.precedes(t[i]));
        assert forall|y: T|
            (forall|i: int| 0 <= i < s.len() ==> !#[trigger] y.precedes(s[i])) && !y.precedes(
                x,
            ) implies (forall|i: int|
            0 <= i < placed(s, x).len() ==> !#[trigger] y.precedes(placed(s, x)[i])) by {
            assert(!y.precedes(s[s.len() - 1]));
            assert forall|i: int| 0 <= i < init.len() implies !#[trigger] y.precedes(init[i]) by {
                assert(!y.precedes(s[i]));
            }
            assert(forall|i: int| 0 <= i < t.len() ==> !#[trigger] y.precedes(t[i]));
        }
    }
}

/// Sorts `items`.
pub fn sort<T: Ranked>(items: Vec<T>) -> (out: Vec<T>)
    ensures
        out@ == ranked(items@),
{
    let mut rest = items;
    let mut out: Vec<T> = Vec::new();
    let ghost mut done: Seq<T> = Seq::empty();
    proof {
        assert(done + rest@ =~= items@);
    }
    while rest.len() > 0
        invariant
            out@ == ranked(done),
            done + rest@ == items@,
        decreases rest.len(),
    {
        let ghost before = rest@;
        let ghost prev = done;
        let x = rest.remove(0);
        proof {
            assert(before =~= seq![x] + rest@);
            assert(done.push(x) + rest@ =~= done + before);
            done = done.push(x);
            assert(done.drop_last() =~= prev);
        }
        place(&mut out, x);
    }
    proof {
        assert(done =~= items@);
    }
    out
}

fn place<T: Ranked>(out: &mut Vec<T>, x: T)
    ensures
        final(out)@ == placed(old(out)@, x),
{
    let mut at: usize = out.len();
    let ghost start = out@;
    proof {
        assert(start.take(at as int) =~= start);
        assert(placed(start.take(at as int), x) + start.skip(at as int) =~= placed(start, x));
    }
    while at > 0 && x.is_before(&out[at - 1])
        invariant
            out@ == start,
            at <= start.len(),
            placed(start.take(at as int), x) + start.skip(at as int) == placed(start, x),
        decreases at,
    {
        proof {
            let s = start.take(at as int);
            assert(s.last() == start[at - 1]);
            assert(s.drop_last() =~= start.take(at - 1));
            assert(placed(s, x) == placed(s.drop_last(), x).push(s.last()));
            assert(placed(s.drop_last(), x).push(s.last()) + start.skip(at as int) =~= placed(
                s.drop_last(),
                x,
            ) + start.skip(at - 1));
        }
        at = at - 1;
    }
    proof {
        let s = start.take(at as int);
        assert(at > 0 ==> s.last() == start[at - 1]);
        assert(placed(s, x) == s.push(x));
        assert(start.insert(at as int, x) =~= s.push(x) + start.skip(at as int));
    }
    out.insert(at, x);
}

} // verus!
