//! Lists of records that are told apart by an id.

use vstd::prelude::*;

use crate::flow::graph::Text;
use crate::text::opt_text;

verus! {

/// A record with an id.
pub trait Record: Sized {
    spec fn key(self) -> Text;

    fn named(&self, id: &str) -> (r: bool)
        ensures
            r == (self.key() == id@),
    ;
}

/// The ids of the records.
pub open spec fn keys_of<T: Record>(v: Seq<T>) -> Seq<Text> {
    v.map_values(|x: T| x.key())
}

/// The first record with this id.
pub open spec fn first_with<T: Record>(v: Seq<T>, id: Text) -> Option<T>
    decreases v.len(),
{
    if v.len() == 0 {
        None
    } else if v[0].key() == id {
        Some(v[0])
    } else {
        first_with(v.drop_first(), id)
    }
}

/// Records with another id.
pub open spec fn other_than<T: Record>(id: Text) -> spec_fn(T) -> bool {
    |x: T| x.key() != id
}

/// The records with another id.
pub open spec fn others<T: Record>(v: Seq<T>, id: Text) -> Seq<T> {
    v.filter(other_than(id))
}

/// A record is found where its id occurs, and it has that id.
pub proof fn lemma_first_with<T: Record>(v: Seq<T>, id: Text)
    ensures
        first_with(v, id) is Some <==> keys_of(v).contains(id),
        first_with(v, id) matches Some(x) ==> x.key() == id && v.contains(x),
    decreases v.len(),
{
    if v.len() > 0 {
        let rest = v.drop_first();
        lemma_first_with(rest, id);
        if v[0].key() == id {
            assert(keys_of(v)[0] == id);
            assert(v.contains(v[0]));
        } else {
            if keys_of(v).contains(id) {
                let i = choose|i: int| 0 <= i < keys_of(v).len() && keys_of(v)[i] == id;
                assert(keys_of(rest)[i - 1] == id);
            }
            if keys_of(rest).contains(id) {
                let i = choose|i: int| 0 <= i < keys_of(rest).len() && keys_of(rest)[i] == id;
                assert(keys_of(v)[i + 1] == id);
                let x = first_with(rest, id)->0;
                let k = choose|k: int| 0 <= k < rest.len() && rest[k] == x;
                assert(v[k + 1] == x);
            }
        }
    }
}

/// No record with the id is left among the others, and every other record is.
pub proof fn lemma_others<T: Record>(v: Seq<T>, id: Text)
    ensures
        !keys_of(others(v, id)).contains(id),
        forall|x: T| #[trigger] others(v, id).contains(x) <==> v.contains(x) && x.key() != id,
{
    let kept = others(v, id);
    if keys_of(kept).contains(id) {
        let i = choose|i: int| 0 <= i < keys_of(kept).len() && keys_of(kept)[i] == id;
        v.lemma_filter_pred(other_than(id), i);
    }
    assert forall|x: T| #[trigger] kept.contains(x) <==> v.contains(x) && x.key() != id by {
        if kept.contains(x) {
            v.lemma_filter_contains_rev(other_than(id), x);
            let i = choose|i: int| 0 <= i < kept.len() && kept[i] == x;
            v.lemma_filter_pred(other_than(id), i);
        }
        if v.contains(x) && x.key() != id {
            let i = choose|i: int| 0 <= i < v.len() && v[i] == x;
            v.lemma_filter_contains(other_than(id), i);
        }
    }
}

/// Where the first record with this id stands.
pub fn position<T: Record>(v: &Vec<T>, id: &str) -> (r: Option<usize>)
    ensures
        match r {
            Some(i) => {
                &&& i < v@.len()
                &&& v@[i as int].key() == id@
                &&& first_with(v@, id@) == Some(v@[i as int])
                &&& forall|j: int| 0 <= j < i ==> (#[trigger] v@[j]).key() != id@
            },
            None => first_with(v@, id@) is None && !keys_of(v@).contains(id@),
        },
{
    let mut i: usize = 0;
    assert(v@.skip(0) =~= v@);
    while i < v.len()
        invariant
            i <= v@.len(),
            forall|j: int| 0 <= j < i ==> (#[trigger] v@[j]).key() != id@,
            first_with(v@, id@) == first_with(v@.skip(i as int), id@),
        decreases v@.len() - i,
    {
        assert(v@.skip(i as int)[0] == v@[i as int]);
        if v[i].named(id) {
            return Some(i);
        }
        assert(v@.skip(i as int).drop_first() =~= v@.skip(i + 1));
        i += 1;
    }
    proof { lemma_first_with(v@, id@); }
    None
}

/// The first record with this id.
pub fn find<'a, T: Record>(v: &'a Vec<T>, id: &str) -> (r: Option<&'a T>)
    ensures
        match r {
            Some(x) => first_with(v@, id@) == Some(*x),
            None => first_with(v@, id@) is None,
        },
{
    match position(v, id) {
        Some(i) => Some(&v[i]),
        None => None,
    }
}

/// Takes out every record with this id.
pub fn drop_all<T: Record>(v: Vec<T>, id: &str) -> (r: Vec<T>)
    ensures
        r@ == others(v@, id@),
{
    let ghost all = v@;
    let mut rest = v;
    let mut out: Vec<T> = Vec::new();
    let ghost mut done: int = 0;
    proof {
        reveal(Seq::filter);
        assert(all.take(0) =~= Seq::<T>::empty());
        assert(all.skip(0) =~= all);
    }
    while rest.len() > 0
        invariant
            0 <= done <= all.len(),
            rest@ == all.skip(done),
            out@ == others(all.take(done), id@),
        decreases rest@.len(),
    {
        let x = rest.remove(0);
        proof {
            reveal(Seq::filter);
            assert(x == all[done]);
            assert(all.take(done + 1).drop_last() =~= all.take(done));
            assert(all.take(done + 1).last() == x);
            assert(rest@ =~= all.skip(done + 1));
            done = done + 1;
        }
        if !x.named(id) {
            out.push(x);
        }
    }
    assert(all.take(done) =~= all);
    out
}

/// The id asked for where there is a record of it, else the fresh one.
pub open spec fn chosen_id<T: Record>(list: Seq<T>, id: Option<Text>, fresh: Text) -> Text {
    match id {
        Some(i) => if keys_of(list).contains(i) {
            i
        } else {
            fresh
        },
        None => fresh,
    }
}

/// The id asked for where there is a record of it, else the fresh one.
pub fn choose_id<T: Record>(list: &Vec<T>, id: Option<String>, fresh: String) -> (r: String)
    ensures
        r@ == chosen_id(list@, opt_text(id), fresh@),
{
    match id {
        Some(i) => {
            proof { lemma_first_with(list@, i@); }
            if position(list, &i).is_some() {
                i
            } else {
                fresh
            }
        },
        None => fresh,
    }
}

/// The record that is found is the first of that id, and one is found wherever there is one.
pub proof fn law_the_first_record_is_found<T: Record>(v: Seq<T>, id: Text, i: int)
    requires
        0 <= i < v.len(),
        v[i].key() == id,
        forall|j: int| 0 <= j < i ==> (#[trigger] v[j]).key() != id,
    ensures
        first_with(v, id) == Some(v[i]),
    decreases v.len(),
{
    if i > 0 {
        let rest = v.drop_first();
        assert(v[0].key() != id);
        assert(rest[i - 1] == v[i]);
        assert forall|j: int| 0 <= j < i - 1 implies (#[trigger] rest[j]).key() != id by {
            assert(rest[j] == v[j + 1]);
        }
        law_the_first_record_is_found(rest, id, i - 1);
    }
}

/// Nothing is found under an id that no record has.
pub proof fn law_unknown_ids_find_nothing<T: Record>(v: Seq<T>, id: Text)
    requires
        forall|j: int| 0 <= j < v.len() ==> (#[trigger] v[j]).key() != id,
    ensures
        first_with(v, id) is None,
        others(v, id) == v,
    decreases v.len(),
{
    if v.len() > 0 {
        let rest = v.drop_first();
        assert(v[0].key() != id);
        assert forall|j: int| 0 <= j < rest.len() implies (#[trigger] rest[j]).key() != id by {
            assert(rest[j] == v[j + 1]);
        }
        law_unknown_ids_find_nothing(rest, id);
    }
    lemma_all_others(v, id);
}

proof fn lemma_all_others<T: Record>(v: Seq<T>, id: Text)
    requires
        forall|j: int| 0 <= j < v.len() ==> (#[trigger] v[j]).key() != id,
    ensures
        others(v, id) == v,
    decreases v.len(),
{
    reveal(Seq::filter);
    if v.len() > 0 {
        let front = v.drop_last();
        assert forall|j: int| 0 <= j < front.len() implies (#[trigger] front[j]).key() != id by {
            assert(front[j] == v[j]);
        }
        lemma_all_others(front, id);
        assert(v[v.len() - 1].key() != id);
        assert(others(v, id) =~= others(front, id).push(v.last()));
        assert(front.push(v.last()) =~= v);
    }
}

/// A record that is known keeps its id, and one that is new gets the fresh one, whatever id it
/// brought.
pub proof fn law_known_records_keep_their_id<T: Record>(list: Seq<T>, i: int, id: Text, fresh: Text)
    ensures
        0 <= i < list.len() ==> chosen_id(list, Some(list[i].key()), fresh) == list[i].key(),
        chosen_id(list, None, fresh) == fresh,
        (forall|j: int| 0 <= j < list.len() ==> (#[trigger] list[j]).key() != id) ==> chosen_id(list, Some(id), fresh) == fresh,
{
    if 0 <= i < list.len() {
        assert(keys_of(list)[i] == list[i].key());
    }
    if forall|j: int| 0 <= j < list.len() ==> (#[trigger] list[j]).key() != id {
        if keys_of(list).contains(id) {
            let j = choose|j: int| 0 <= j < keys_of(list).len() && keys_of(list)[j] == id;
            assert(list[j].key() == id);
        }
    }
}

}
