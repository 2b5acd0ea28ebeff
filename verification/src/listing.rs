//! Records as they are listed: by label, those of one label by id.

use vstd::prelude::*;
use vstd::string::*;

use crate::flow::graph::Text;
use crate::json::{as_text, part, text_of, Json, JsonView};
use crate::sorting::{in_order, sort, Ranked};
use crate::text::{lemma_lex_chain, lemma_lex_total, less, lex_less, same};

verus! {

/// A record as it is listed.
pub struct Listed {
    pub value: Json,
}

/// The label that a record is listed under; an empty one where it has none.
pub open spec fn label_of(v: JsonView) -> Text {
    match as_text(part(v, "label"@)) {
        Some(s) => s,
        None => Seq::empty(),
    }
}

pub open spec fn id_of(v: JsonView) -> Option<Text> {
    as_text(part(v, "id"@))
}

/// Nothing stands before something.
pub open spec fn opt_less(a: Option<Text>, b: Option<Text>) -> bool {
    match (a, b) {
        (None, Some(_)) => true,
        (Some(x), Some(y)) => lex_less(x, y),
        _ => false,
    }
}

pub open spec fn listed_before(a: JsonView, b: JsonView) -> bool {
    lex_less(label_of(a), label_of(b)) || (label_of(a) == label_of(b) && opt_less(id_of(a), id_of(b)))
}

impl Ranked for Listed {
    open spec fn ahead(self, other: Self) -> bool {
        listed_before(self.value.model(), other.value.model())
    }

    fn is_ahead(&self, other: &Self) -> (r: bool) {
        let a = match text_of(&self.value, "label") {
            Some(s) => s.clone(),
            None => String::new(),
        };
        let b = match text_of(&other.value, "label") {
            Some(s) => s.clone(),
            None => String::new(),
        };
        assert(a@ =~= label_of(self.value.model()));
        assert(b@ =~= label_of(other.value.model()));
        proof { lemma_lex_total(a@, b@); }
        if less(&a, &b) {
            return true;
        }
        if !same(&a, &b) {
            return false;
        }
        match (text_of(&self.value, "id"), text_of(&other.value, "id")) {
            (None, Some(_)) => true,
            (Some(x), Some(y)) => less(x, y),
            _ => false,
        }
    }

    proof fn lemma_one_way(a: Self, b: Self) {
        let (x, y) = (a.value.model(), b.value.model());
        lemma_lex_total(label_of(x), label_of(y));
        lemma_lex_total(label_of(y), label_of(x));
        if id_of(x) is Some && id_of(y) is Some {
            lemma_lex_total(id_of(x)->0, id_of(y)->0);
            lemma_lex_total(id_of(y)->0, id_of(x)->0);
        }
    }

    proof fn lemma_chain(a: Self, b: Self, c: Self) {
        let (x, y, z) = (a.value.model(), b.value.model(), c.value.model());
        if !b.ahead(a) && !c.ahead(b) {
            lemma_lex_chain(label_of(x), label_of(y), label_of(z));
            if label_of(x) == label_of(z) && id_of(x) is Some {
                lemma_lex_chain(id_of(x)->0, id_of(y)->0, id_of(z)->0);
            }
        }
    }
}

/// The records in the order in which they are listed.
pub fn list_records(list: Vec<Listed>) -> (r: Vec<Listed>)
    ensures
        r@ == in_order(list@),
{
    sort(list)
}

/// Entries are listed by their labels, and by their ids where the labels are the same: one whose
/// label comes first stands before, and an entry without an id stands before one with an id.
pub proof fn law_labels_decide_before_ids(a: JsonView, b: JsonView, x: Text, y: Text)
    ensures
        lex_less(label_of(a), label_of(b)) ==> listed_before(a, b) && !listed_before(b, a),
        label_of(a) == label_of(b) && part(a, "id"@) == JsonView::Text(x) && part(b, "id"@) == JsonView::Text(y) ==> (listed_before(a, b)
            <==> lex_less(x, y)),
        label_of(a) == label_of(b) && !(part(a, "id"@) is Text) && part(b, "id"@) is Text ==> listed_before(a, b) && !listed_before(b, a),
        part(a, "label"@) == JsonView::Text(x) ==> label_of(a) == x,
        !(part(a, "label"@) is Text) ==> label_of(a).len() == 0,
{
    lemma_lex_total(label_of(a), label_of(b));
    lemma_lex_total(label_of(a), label_of(a));
}

}
