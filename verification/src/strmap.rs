//! A map from strings to values that keeps its entries in the order in which their keys were
//! first set.

use vstd::prelude::*;

use crate::text::{same, texts};

verus! {

/// A string-keyed map. No key occurs twice.
pub struct StrMap<V> {
    entries: Vec<(String, V)>,
}

impl<V> StrMap<V> {
    #[verifier::type_invariant]
    spec fn distinct(self) -> bool {
        forall|i: int, j: int|
            0 <= i < j < self.entries@.len() ==> #[trigger] self.entries@[i].0@ != #[trigger] self.entries@[j].0@
    }

    /// The keys, in the order in which they were first set.
    pub closed spec fn key_seq(self) -> Seq<Seq<char>> {
        self.entries@.map_values(|e: (String, V)| e.0@)
    }
}

impl<V> View for StrMap<V> {
    type V = Map<Seq<char>, V>;

    closed spec fn view(&self) -> Map<Seq<char>, V> {
        Map::new(
            |k: Seq<char>| exists|i: int| 0 <= i < self.entries@.len() && #[trigger] self.entries@[i].0@ == k,
            |k: Seq<char>| self.entries@[choose|i: int| 0 <= i < self.entries@.len() && #[trigger] self.entries@[i].0@ == k].1,
        )
    }
}

/// A map to strings by their views.
pub open spec fn text_map(m: Map<Seq<char>, String>) -> Map<Seq<char>, Seq<char>> {
    m.map_values(|s: String| s@)
}

pub proof fn lemma_text_insert(m: Map<Seq<char>, String>, key: Seq<char>, value: String)
    ensures
        text_map(m.insert(key, value)) == text_map(m).insert(key, value@),
{
    assert(text_map(m.insert(key, value)) =~= text_map(m).insert(key, value@));
}

pub proof fn lemma_text_remove(m: Map<Seq<char>, String>, key: Seq<char>)
    ensures
        text_map(m.remove(key)) == text_map(m).remove(key),
{
    assert(text_map(m.remove(key)) =~= text_map(m).remove(key));
}

/// The keys other than `x`.
pub open spec fn without(keys: Seq<Seq<char>>, x: Seq<char>) -> Seq<Seq<char>> {
    keys.filter(|k: Seq<char>| k != x)
}

/// The strings other than `x`.
pub fn drop_text(v: &Vec<String>, x: &str) -> (r: Vec<String>)
    ensures
        texts(r@) == without(texts(v@), x@),
{
    let mut out: Vec<String> = Vec::new();
    let ghost all = texts(v@);
    let mut i: usize = 0;
    proof {
        reveal(Seq::filter);
        assert(all.take(0) =~= Seq::<Seq<char>>::empty());
        assert(texts(out@) =~= without(all.take(0), x@));
    }
    while i < v.len()
        invariant
            i <= v@.len(),
            all == texts(v@),
            texts(out@) == without(all.take(i as int), x@),
        decreases v@.len() - i,
    {
        let ghost before = out@;
        proof {
            reveal(Seq::filter);
            assert(all.take(i + 1).drop_last() =~= all.take(i as int));
            assert(all.take(i + 1).last() == v@[i as int]@);
        }
        if !same(&v[i], x) {
            out.push(v[i].clone());
            assert(texts(out@) =~= texts(before).push(v@[i as int]@));
        }
        i += 1;
    }
    assert(all.take(all.len() as int) =~= all);
    out
}

pub proof fn lemma_without_other(s: Seq<Seq<char>>, x: Seq<char>, y: Seq<char>)
    ensures
        x != y ==> without(s, x).contains(y) == s.contains(y),
        !without(s, x).contains(x),
    decreases s.len(),
{
    reveal(Seq::filter);
    if s.len() > 0 {
        let head = s.drop_last();
        lemma_without_other(head, x, y);
        let kept = without(head, x);
        assert(s =~= head.push(s.last()));
        lemma_push_contains(head, s.last(), y);
        lemma_push_contains(kept, s.last(), y);
        lemma_push_contains(kept, s.last(), x);
    }
}

pub proof fn lemma_push_contains(s: Seq<Seq<char>>, a: Seq<char>, x: Seq<char>)
    ensures
        s.push(a).contains(x) == (s.contains(x) || a == x),
{
    if s.contains(x) {
        let i = choose|i: int| 0 <= i < s.len() && s[i] == x;
        assert(s.push(a)[i] == x);
    }
    if a == x {
        assert(s.push(a)[s.len() as int] == x);
    }
}

pub proof fn lemma_without_none(s: Seq<Seq<char>>, x: Seq<char>)
    requires
        !s.contains(x),
    ensures
        without(s, x) == s,
    decreases s.len(),
{
    reveal(Seq::filter);
    if s.len() > 0 {
        assert(s.drop_last().push(s.last()) =~= s);
        lemma_push_contains(s.drop_last(), s.last(), x);
        lemma_without_none(s.drop_last(), x);
    }
}

proof fn lemma_filter_out(s: Seq<Seq<char>>, i: int, x: Seq<char>)
    requires
        0 <= i < s.len(),
        s[i] == x,
        s.no_duplicates(),
    ensures
        without(s, x) == s.remove(i),
    decreases s.len(),
{
    reveal(Seq::filter);
    if i == s.len() - 1 {
        assert forall|j: int| 0 <= j < s.drop_last().len() implies s.drop_last()[j] != x by {
            assert(s[j] != s[i]);
        }
        lemma_without_none(s.drop_last(), x);
        assert(s.remove(i) =~= s.drop_last());
    } else {
        lemma_filter_out(s.drop_last(), i, x);
        assert(s.last() != x);
        assert(s.drop_last().remove(i).push(s.last()) =~= s.remove(i));
    }
}

impl<V> StrMap<V> {
    proof fn lemma_at(self, i: int)
        requires
            self.distinct(),
            0 <= i < self.entries@.len(),
        ensures
            self@.contains_key(self.entries@[i].0@),
            self@[self.entries@[i].0@] == self.entries@[i].1,
    {
        let k = self.entries@[i].0@;
        let j = choose|j: int| 0 <= j < self.entries@.len() && #[trigger] self.entries@[j].0@ == k;
        assert(self.entries@[i].0@ == k);
        if i < j {
            assert(self.entries@[i].0@ != self.entries@[j].0@);
        }
        if j < i {
            assert(self.entries@[j].0@ != self.entries@[i].0@);
        }
    }

    /// The empty map.
    pub fn new() -> (r: Self)
        ensures
            r@ == Map::<Seq<char>, V>::empty(),
            r.key_seq() == Seq::<Seq<char>>::empty(),
    {
        let r = StrMap { entries: Vec::new() };
        assert(r@ =~= Map::<Seq<char>, V>::empty());
        r
    }

    fn position(&self, key: &str) -> (r: Option<usize>)
        ensures
            match r {
                Some(i) => i < self.entries@.len() && self.entries@[i as int].0@ == key@,
                None => forall|i: int| 0 <= i < self.entries@.len() ==> #[trigger] self.entries@[i].0@ != key@,
            },
    {
        let mut i: usize = 0;
        while i < self.entries.len()
            invariant
                i <= self.entries@.len(),
                forall|j: int| 0 <= j < i ==> #[trigger] self.entries@[j].0@ != key@,
            decreases self.entries@.len() - i,
        {
            if same(&self.entries[i].0, key) {
                return Some(i);
            }
            i += 1;
        }
        None
    }

    /// The value under `key`, if there is one.
    pub fn get(&self, key: &str) -> (r: Option<&V>)
        ensures
            match r {
                Some(v) => self@.contains_key(key@) && *v == self@[key@],
                None => !self@.contains_key(key@),
            },
    {
        proof { use_type_invariant(self); }
        match self.position(key) {
            Some(i) => {
                proof { self.lemma_at(i as int); }
                Some(&self.entries[i].1)
            },
            None => None,
        }
    }

    /// Whether there is a value under `key`.
    pub fn contains(&self, key: &str) -> (r: bool)
        ensures
            r == self@.contains_key(key@),
    {
        self.get(key).is_some()
    }

    /// Puts `value` under `key`, in place of any value that was there.
    pub fn set(&mut self, key: &str, value: V)
        ensures
            final(self)@ == old(self)@.insert(key@, value),
            final(self).key_seq() == if old(self)@.contains_key(key@) { old(self).key_seq() } else { old(self).key_seq().push(key@) },
    {
        proof { use_type_invariant(&*self); }
        let at = self.position(key);
        let mut entries: Vec<(String, V)> = Vec::new();
        std::mem::swap(&mut entries, &mut self.entries);
        let ghost before = *old(self);
        assert(entries@ == before.entries@);
        match at {
            Some(i) => {
                proof { before.lemma_at(i as int); }
                let kept = entries[i].0.clone();
                entries[i] = (kept, value);
                self.entries = entries;
                proof {
                    assert forall|k: Seq<char>| #[trigger] self@.contains_key(k) == before@.insert(key@, value).contains_key(k) by {
                        if before@.contains_key(k) {
                            let j = choose|j: int| 0 <= j < before.entries@.len() && #[trigger] before.entries@[j].0@ == k;
                            assert(self.entries@[j].0@ == k);
                        }
                        if self@.contains_key(k) {
                            let j = choose|j: int| 0 <= j < self.entries@.len() && #[trigger] self.entries@[j].0@ == k;
                            assert(before.entries@[j].0@ == k);
                        }
                    }
                    assert forall|k: Seq<char>| #[trigger] self@.contains_key(k) implies self@[k] == before@.insert(key@, value)[k] by {
                        let j = choose|j: int| 0 <= j < self.entries@.len() && #[trigger] self.entries@[j].0@ == k;
                        self.lemma_at(j);
                        before.lemma_at(j);
                    }
                    assert(self@ =~= before@.insert(key@, value));
                    assert(self.key_seq() =~= before.key_seq());
                }
            },
            None => {
                entries.push((key.to_owned(), value));
                self.entries = entries;
                proof {
                    assert forall|k: Seq<char>| #[trigger] self@.contains_key(k) == before@.insert(key@, value).contains_key(k) by {
                        if before@.contains_key(k) {
                            let j = choose|j: int| 0 <= j < before.entries@.len() && #[trigger] before.entries@[j].0@ == k;
                            assert(self.entries@[j].0@ == k);
                        }
                        if k == key@ {
                            assert(self.entries@[before.entries@.len() as int].0@ == k);
                        }
                        if self@.contains_key(k) && k != key@ {
                            let j = choose|j: int| 0 <= j < self.entries@.len() && #[trigger] self.entries@[j].0@ == k;
                            assert(before.entries@[j].0@ == k);
                        }
                    }
                    assert forall|k: Seq<char>| #[trigger] self@.contains_key(k) implies self@[k] == before@.insert(key@, value)[k] by {
                        let j = choose|j: int| 0 <= j < self.entries@.len() && #[trigger] self.entries@[j].0@ == k;
                        self.lemma_at(j);
                        if k != key@ {
                            before.lemma_at(j);
                        }
                    }
                    assert(self@ =~= before@.insert(key@, value));
                    assert(!before@.contains_key(key@));
                    assert(self.key_seq() =~= before.key_seq().push(key@));
                }
            },
        }
    }

    /// Takes out the entry under `key`, if there is one.
    pub fn remove(&mut self, key: &str) -> (r: Option<V>)
        ensures
            final(self)@ == old(self)@.remove(key@),
            match r {
                Some(v) => old(self)@.contains_key(key@) && v == old(self)@[key@],
                None => !old(self)@.contains_key(key@),
            },
            final(self).key_seq() == without(old(self).key_seq(), key@),
    {
        proof { use_type_invariant(&*self); }
        let at = self.position(key);
        let mut entries: Vec<(String, V)> = Vec::new();
        std::mem::swap(&mut entries, &mut self.entries);
        let ghost before = *old(self);
        assert(entries@ == before.entries@);
        match at {
            Some(i) => {
                proof { before.lemma_at(i as int); }
                let (_, value) = entries.remove(i);
                self.entries = entries;
                proof {
                    assert(self.entries@ == before.entries@.remove(i as int));
                    assert forall|k: Seq<char>| #[trigger] self@.contains_key(k) == before@.remove(key@).contains_key(k) by {
                        if before@.contains_key(k) && k != key@ {
                            let j = choose|j: int| 0 <= j < before.entries@.len() && #[trigger] before.entries@[j].0@ == k;
                            assert(self.entries@[if j < i { j } else { j - 1 }].0@ == k);
                        }
                        if self@.contains_key(k) {
                            let j = choose|j: int| 0 <= j < self.entries@.len() && #[trigger] self.entries@[j].0@ == k;
                            assert(before.entries@[if j < i { j } else { j + 1 }].0@ == k);
                        }
                    }
                    assert forall|k: Seq<char>| #[trigger] self@.contains_key(k) implies self@[k] == before@.remove(key@)[k] by {
                        let j = choose|j: int| 0 <= j < self.entries@.len() && #[trigger] self.entries@[j].0@ == k;
                        self.lemma_at(j);
                        before.lemma_at(if j < i { j } else { j + 1 });
                    }
                    assert(self@ =~= before@.remove(key@));
                    assert forall|a: int, b: int| 0 <= a < b < before.key_seq().len() implies before.key_seq()[a] != before.key_seq()[b] by {
                        assert(before.entries@[a].0@ != before.entries@[b].0@);
                    }
                    lemma_filter_out(before.key_seq(), i as int, key@);
                    assert(self.key_seq() =~= before.key_seq().remove(i as int));
                }
                Some(value)
            },
            None => {
                self.entries = entries;
                proof {
                    assert(!before@.contains_key(key@));
                    assert(before@.remove(key@) =~= before@);
                    assert forall|j: int| 0 <= j < before.key_seq().len() implies before.key_seq()[j] != key@ by {
                        assert(before.entries@[j].0@ != key@);
                    }
                    lemma_without_none(before.key_seq(), key@);
                }
                None
            },
        }
    }

    /// The keys, in the order in which they were first set.
    pub fn keys(&self) -> (r: Vec<String>)
        ensures
            texts(r@) == self.key_seq(),
            texts(r@).no_duplicates(),
            texts(r@).to_set() == self@.dom(),
    {
        proof { use_type_invariant(self); }
        let mut out: Vec<String> = Vec::new();
        let mut i: usize = 0;
        while i < self.entries.len()
            invariant
                i <= self.entries@.len(),
                out@.len() == i,
                forall|j: int| 0 <= j < i ==> #[trigger] out@[j]@ == self.entries@[j].0@,
            decreases self.entries@.len() - i,
        {
            out.push(self.entries[i].0.clone());
            i += 1;
        }
        proof {
            assert(texts(out@) =~= self.key_seq());
            assert forall|a: int, b: int| 0 <= a < b < self.key_seq().len() implies self.key_seq()[a] != self.key_seq()[b] by {
                assert(self.entries@[a].0@ != self.entries@[b].0@);
            }
            assert forall|k: Seq<char>| #[trigger] texts(out@).to_set().contains(k) == self@.dom().contains(k) by {
                if self@.contains_key(k) {
                    let j = choose|j: int| 0 <= j < self.entries@.len() && #[trigger] self.entries@[j].0@ == k;
                    assert(texts(out@)[j] == k);
                }
                if texts(out@).contains(k) {
                    let j = choose|j: int| 0 <= j < texts(out@).len() && texts(out@)[j] == k;
                    assert(self.entries@[j].0@ == k);
                }
            }
            assert(texts(out@).to_set() =~= self@.dom());
        }
        out
    }
}

}
