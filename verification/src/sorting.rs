//! Sorting by an order of the element type's own. Elements that neither stands ahead of the other
//! keep the order in which they came.

use vstd::prelude::*;

verus! {

/// A type whose values can be put in order.
pub trait Ranked: Sized {
    /// `self` stands before `other`, whatever the order in which they came.
    spec fn ahead(self, other: Self) -> bool;

    fn is_ahead(&self, other: &Self) -> (r: bool)
        ensures
            r == self.ahead(*other),
    ;

    /// No two values stand ahead of each other.
    proof fn lemma_one_way(a: Self, b: Self)
        ensures
            a.ahead(b) ==> !b.ahead(a),
    ;

    /// What is not behind something that is not behind a value is not behind the value.
    proof fn lemma_chain(a: Self, b: Self, c: Self)
        ensures
            !b.ahead(a) && !c.ahead(b) ==> !c.ahead(a),
    ;
}

/// `x` put into `s`, behind everything that it is not ahead of.
pub open spec fn placed<T: Ranked>(s: Seq<T>, x: T) -> Seq<T>
    decreases s.len(),
{
    if s.len() == 0 || !x.ahead(s.last()) {
        s.push(x)
    } else {
        placed(s.drop_last(), x).push(s.last())
    }
}

/// The values in order.
pub open spec fn in_order<T: Ranked>(s: Seq<T>) -> Seq<T>
    decreases s.len(),
{
    if s.len() == 0 {
        s
    } else {
        placed(in_order(s.drop_last()), s.last())
    }
}

/// No value stands ahead of one before it.
pub open spec fn ordered<T: Ranked>(s: Seq<T>) -> bool {
    forall|i: int, j: int| 0 <= i < j < s.len() ==> !(#[trigger] s[j]).ahead(#[trigger] s[i])
}

proof fn lemma_placed<T: Ranked>(s: Seq<T>, x: T)
    requires
        ordered(s),
    ensures
        ordered(placed(s, x)),
        placed(s, x).to_multiset() == s.to_multiset().insert(x),
        placed(s, x).len() == s.len() + 1,
    decreases s.len(),
{
    broadcast use vstd::seq_lib::group_to_multiset_ensures;

    if s.len() == 0 || !x.ahead(s.last()) {
        assert forall|i: int, j: int| 0 <= i < j < s.push(x).len() implies !(#[trigger] s.push(x)[j]).ahead(#[trigger] s.push(x)[i]) by {
            if j == s.len() {
                T::lemma_chain(s[i], s.last(), x);
                if i < s.len() - 1 {
                    assert(!s[s.len() - 1].ahead(s[i]));
                }
            }
        }
    } else {
        let head = s.drop_last();
        let rest = placed(head, x);
        lemma_placed(head, x);
        let all = rest.push(s.last());
        assert(head.push(s.last()) =~= s);
        assert forall|i: int, j: int| 0 <= i < j < all.len() implies !(#[trigger] all[j]).ahead(#[trigger] all[i]) by {
            if j == rest.len() {
                assert(rest.to_multiset().count(rest[i]) > 0);
                if rest[i] == x {
                    T::lemma_one_way(x, s.last());
                } else {
                    assert(head.to_multiset().count(rest[i]) > 0);
                    assert(head.contains(rest[i]));
                    let k = choose|k: int| 0 <= k < head.len() && head[k] == rest[i];
                    assert(!s[s.len() - 1].ahead(s[k]));
                }
            }
        }
        assert(all.to_multiset() =~= s.to_multiset().insert(x));
    }
}

/// The values in order hold every value as often as it came, and none stands ahead of one before
/// it.
pub proof fn law_order_keeps_what_came<T: Ranked>(s: Seq<T>)
    ensures
        ordered(in_order(s)),
        in_order(s).to_multiset() == s.to_multiset(),
        in_order(s).len() == s.len(),
    decreases s.len(),
{
    broadcast use vstd::seq_lib::group_to_multiset_ensures;

    if s.len() > 0 {
        law_order_keeps_what_came(s.drop_last());
        lemma_placed(in_order(s.drop_last()), s.last());
        assert(s.drop_last().push(s.last()) =~= s);
    }
}

fn place<T: Ranked>(list: &mut Vec<T>, x: T)
    ensures
        final(list)@ == placed(old(list)@, x),
{
    let ghost s = list@;
    let mut i: usize = list.len();
    assert(s.take(s.len() as int) =~= s);
    assert(placed(s, x) =~= placed(s.take(i as int), x) + s.skip(i as int));
    while i > 0 && x.is_ahead(&list[i - 1])
        invariant
            i <= s.len(),
            list@ == s,
            placed(s, x) == placed(s.take(i as int), x) + s.skip(i as int),
        decreases i,
    {
        proof {
            let part = s.take(i as int);
            assert(part.last() == s[i - 1]);
            assert(part.drop_last() =~= s.take(i - 1));
            assert(placed(s.take(i - 1), x).push(s[i - 1]) + s.skip(i as int) =~= placed(s.take(i - 1), x) + s.skip(i - 1));
        }
        i -= 1;
    }
    proof {
        let part = s.take(i as int);
        if i > 0 {
            assert(part.last() == s[i - 1]);
        }
        assert(placed(part, x) == part.push(x));
        assert(s.insert(i as int, x) =~= part.push(x) + s.skip(i as int));
    }
    list.insert(i, x);
}

/// Puts the values in order.
pub fn sort<T: Ranked>(list: Vec<T>) -> (r: Vec<T>)
    ensures
        r@ == in_order(list@),
{
    let ghost all = list@;
    let mut rest = list;
    let mut out: Vec<T> = Vec::new();
    let ghost mut done: int = 0;
    assert(all.take(0) =~= Seq::<T>::empty());
    assert(all.skip(0) =~= all);
    while rest.len() > 0
        invariant
            0 <= done <= all.len(),
            rest@ == all.skip(done),
            out@ == in_order(all.take(done)),
        decreases rest@.len(),
    {
        let x = rest.remove(0);
        proof {
            assert(x == all[done]);
            assert(all.take(done + 1).drop_last() =~= all.take(done));
            assert(all.take(done + 1).last() == x);
            assert(rest@ =~= all.skip(done + 1));
            done = done + 1;
        }
        place(&mut out, x);
    }
    assert(all.take(done) =~= all);
    out
}

proof fn lemma_placed_stays<T: Ranked>(s: Seq<T>, x: T, p: spec_fn(T) -> bool)
    requires
        forall|i: int| 0 <= i < s.len() && p(#[trigger] s[i]) && p(x) ==> !x.ahead(s[i]),
    ensures
        placed(s, x).filter(p) == s.push(x).filter(p),
    decreases s.len(),
{
    reveal(Seq::filter);
    if s.len() > 0 && x.ahead(s.last()) {
        let front = s.drop_last();
        assert(p(s[s.len() - 1]) && p(x) ==> !x.ahead(s[s.len() - 1]));
        assert forall|i: int| 0 <= i < front.len() && p(#[trigger] front[i]) && p(x) implies !x.ahead(front[i]) by {
            assert(front[i] == s[i]);
        }
        lemma_placed_stays(front, x, p);
        assert(placed(s, x).drop_last() =~= placed(front, x));
        assert(placed(s, x).last() == s.last());
        assert(front.push(x).drop_last() =~= front);
        assert(s.push(x).drop_last() =~= s);
        if p(s.last()) {
            assert(placed(s, x).filter(p) =~= placed(front, x).filter(p).push(s.last()));
            assert(s.filter(p) == front.filter(p).push(s.last()));
        } else {
            assert(placed(s, x).filter(p) =~= placed(front, x).filter(p));
            assert(s.filter(p) == front.filter(p));
        }
    }
}

/// Values of which none stands before another keep the order in which they came.
pub proof fn law_equals_keep_their_order<T: Ranked>(s: Seq<T>, p: spec_fn(T) -> bool)
    requires
        forall|a: T, b: T| p(a) && p(b) ==> !(#[trigger] a.ahead(b)),
    ensures
        in_order(s).filter(p) == s.filter(p),
    decreases s.len(),
{
    reveal(Seq::filter);
    if s.len() > 0 {
        let front = s.drop_last();
        law_equals_keep_their_order(front, p);
        lemma_placed_stays(in_order(front), s.last(), p);
        let sorted = in_order(front);
        assert(sorted.push(s.last()).drop_last() =~= sorted);
        assert(in_order(s).filter(p) == sorted.push(s.last()).filter(p));
        if p(s.last()) {
            assert(sorted.push(s.last()).filter(p) =~= sorted.filter(p).push(s.last()));
        } else {
            assert(sorted.push(s.last()).filter(p) =~= sorted.filter(p));
        }
    }
}

}
