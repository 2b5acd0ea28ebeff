//! The providers: those that are built in, those that the user added, and what the user changed
//! about either.

use vstd::prelude::*;
use vstd::string::*;

use crate::flow::graph::Text;
use crate::flow::ids::{first_free, is_fresh_id};
use crate::parse::{filled, keep_filled, lemma_all_filled, nonempty};
use crate::records::{keys_of, Record};
use crate::strmap::{text_map, StrMap};
use crate::text::{
    chars_of, join, joined, law_joined_pieces_split_back, law_pieces_join_back, lemma_joined_front, lemma_split_len, lowercase, lowercased,
    same, split, split_char, string_of, texts,
};

verus! {

/// The protocol that a provider speaks.
#[derive(PartialEq, Eq, Structural, Clone, Copy, Debug)]
pub enum Wire {
    OpenAi,
    Anthropic,
}

/// How a provider wants its key.
#[derive(PartialEq, Eq, Structural, Clone, Copy, Debug)]
pub enum Auth {
    Bearer,
    XApiKey,
}

/// Another address of the same provider.
#[derive(Clone, Debug)]
pub struct Alternate {
    pub base_url: String,
}

/// One provider.
#[derive(Clone, Debug)]
pub struct ProviderRow {
    pub id: String,
    pub label: String,
    pub wire: Wire,
    pub auth: Auth,
    pub base_url: String,
    pub model: String,
    pub models: Vec<String>,
    pub models_url: Option<String>,
    pub alternates: Vec<Alternate>,
    /// The variables that may hold the key, the first choice first.
    pub key_env: Vec<String>,
    pub max_output_tokens: Option<u64>,
    pub betas: Vec<String>,
    pub builtin: bool,
}

/// What the user changed: models and addresses by provider, hidden built-in providers, and
/// providers of their own.
pub struct Overlay {
    pub model: StrMap<String>,
    pub region: StrMap<String>,
    pub hidden: Vec<String>,
    pub added: Vec<ProviderRow>,
}

#[verifier::ext_equal]
pub struct OverlayView {
    pub model: Map<Text, Text>,
    pub region: Map<Text, Text>,
    pub hidden: Seq<Text>,
    pub added: Seq<ProviderRow>,
}

impl View for Overlay {
    type V = OverlayView;

    open spec fn view(&self) -> OverlayView {
        OverlayView { model: text_map(self.model@), region: text_map(self.region@), hidden: texts(self.hidden@), added: self.added@ }
    }
}

impl Overlay {
    /// Nothing changed.
    pub fn new() -> (r: Self)
        ensures
            r@ == (OverlayView { model: Map::empty(), region: Map::empty(), hidden: Seq::empty(), added: Seq::empty() }),
    {
        let r = Overlay { model: StrMap::new(), region: StrMap::new(), hidden: Vec::new(), added: Vec::new() };
        assert(r@ =~= (OverlayView { model: Map::empty(), region: Map::empty(), hidden: Seq::empty(), added: Seq::empty() }));
        r
    }
}

impl Record for ProviderRow {
    open spec fn key(self) -> Text {
        self.id@
    }

    fn named(&self, id: &str) -> (r: bool) {
        same(&self.id, id)
    }
}

// ---- ids for new rows ----

/// A letter or a digit of ASCII.
pub open spec fn alphanumeric(c: char) -> bool {
    ('a' <= c <= 'z') || ('A' <= c <= 'Z') || ('0' <= c <= '9')
}

/// Everything but letters and digits turned into a dash.
pub open spec fn dashed(s: Text) -> Text {
    s.map_values(|c: char| if alphanumeric(c) { c } else { '-' })
}

/// The runs of letters and digits with one dash between each two; `provider` where there are none.
pub open spec fn slug(lowered: Text) -> Text {
    let s = joined(filled(split(dashed(lowered), '-')), seq!['-']);
    if s.len() == 0 {
        "provider"@
    } else {
        s
    }
}

/// The slug of a label that is in lower case already.
pub fn slug_of(lowered: &str) -> (r: String)
    ensures
        r@ == slug(lowered@),
{
    let chars = chars_of(lowered);
    let mut marks: Vec<char> = Vec::new();
    let mut i: usize = 0;
    while i < chars.len()
        invariant
            i <= chars@.len(),
            chars@ == lowered@,
            marks@ == dashed(lowered@).take(i as int),
        decreases chars@.len() - i,
    {
        let c = chars[i];
        let keep = (c >= 'a' && c <= 'z') || (c >= 'A' && c <= 'Z') || (c >= '0' && c <= '9');
        marks.push(if keep { c } else { '-' });
        assert(dashed(lowered@).take(i + 1) =~= dashed(lowered@).take(i as int).push(dashed(lowered@)[i as int]));
        i += 1;
    }
    assert(dashed(lowered@).take(chars@.len() as int) =~= dashed(lowered@));
    let n: usize = marks.len();
    let dashes = string_of(&marks, 0, n);
    assert(dashes@ =~= dashed(lowered@));
    let pieces = split_char(&dashes, '-');
    let kept = keep_filled(&pieces);
    let out = join(&kept, "-");
    proof {
        reveal_strlit("-");
        assert("-"@ =~= seq!['-']);
    }
    if out.unicode_len() == 0 {
        "provider".to_owned()
    } else {
        out
    }
}

/// The ids of the rows and of the rows that were added.
fn taken_ids(rows: &Vec<ProviderRow>, added: &Vec<ProviderRow>) -> (r: Vec<String>)
    requires
        rows@.len() + added@.len() <= usize::MAX,
    ensures
        texts(r@) == keys_of(rows@) + keys_of(added@),
{
    let mut out: Vec<String> = Vec::new();
    let mut i: usize = 0;
    while i < rows.len()
        invariant
            i <= rows@.len(),
            texts(out@) == keys_of(rows@).take(i as int),
        decreases rows@.len() - i,
    {
        let ghost before = out@;
        out.push(rows[i].id.clone());
        assert(texts(out@) =~= texts(before).push(rows@[i as int].id@));
        assert(keys_of(rows@).take(i + 1) =~= keys_of(rows@).take(i as int).push(rows@[i as int].id@));
        i += 1;
    }
    assert(keys_of(rows@).take(rows@.len() as int) =~= keys_of(rows@));
    let mut k: usize = 0;
    while k < added.len()
        invariant
            k <= added@.len(),
            texts(out@) == keys_of(rows@) + keys_of(added@).take(k as int),
        decreases added@.len() - k,
    {
        let ghost before = out@;
        out.push(added[k].id.clone());
        assert(texts(out@) =~= texts(before).push(added@[k as int].id@));
        assert(keys_of(added@).take(k + 1) =~= keys_of(added@).take(k as int).push(added@[k as int].id@));
        k += 1;
    }
    assert(keys_of(added@).take(added@.len() as int) =~= keys_of(added@));
    out
}

/// An id for a row with this label: the label's slug, with a counter where it is taken.
pub fn mint_added_id(rows: &Vec<ProviderRow>, ov: &Overlay, label: &str) -> (r: String)
    requires
        rows@.len() + ov.added@.len() < usize::MAX - 1,
    ensures
        is_fresh_id(keys_of(rows@) + keys_of(ov@.added), slug(lowercase(label@)), r@),
{
    let taken = taken_ids(rows, &ov.added);
    let base = slug_of(&lowercased(label));
    assert(taken@.len() == texts(taken@).len());
    first_free(&taken, base)
}

/// A new row's id is the id of no other row.
pub proof fn law_added_ids_never_collide(rows: Seq<ProviderRow>, added: Seq<ProviderRow>, base: Text, id: Text)
    requires
        is_fresh_id(keys_of(rows) + keys_of(added), base, id),
    ensures
        !keys_of(rows).contains(id),
        !keys_of(added).contains(id),
{
    let taken = keys_of(rows) + keys_of(added);
    assert(!taken.contains(id));
    if keys_of(rows).contains(id) {
        let i = choose|i: int| 0 <= i < keys_of(rows).len() && keys_of(rows)[i] == id;
        assert(taken[i] == id);
    }
    if keys_of(added).contains(id) {
        let i = choose|i: int| 0 <= i < keys_of(added).len() && keys_of(added)[i] == id;
        assert(taken[keys_of(rows).len() + i] == id);
    }
}

proof fn lemma_pieces(s: Text, c: char)
    ensures
        forall|k: int, i: int|
            0 <= k < split(s, c).len() && 0 <= i < split(s, c)[k].len() ==> s.contains(#[trigger] split(s, c)[k][i]) && split(s, c)[k][i] != c,
    decreases s.len(),
{
    if s.len() > 0 {
        let head = s.drop_last();
        lemma_pieces(head, c);
        lemma_split_len(head, c);
        let before = split(head, c);
        assert forall|k: int, i: int| 0 <= k < split(s, c).len() && 0 <= i < split(s, c)[k].len() implies s.contains(#[trigger] split(s, c)[k][i])
            && split(s, c)[k][i] != c by {
            let x = split(s, c)[k][i];
            if k < before.len() && i < before[k].len() {
                assert(x == before[k][i]);
                let j = choose|j: int| 0 <= j < head.len() && head[j] == x;
                assert(s[j] == x);
            } else {
                assert(s[s.len() - 1] == x);
            }
        }
    }
}

pub open spec fn slug_char(c: char) -> bool {
    alphanumeric(c) || c == '-'
}

proof fn lemma_joined_chars(v: Seq<Text>)
    requires
        forall|k: int, i: int| 0 <= k < v.len() && 0 <= i < v[k].len() ==> slug_char(#[trigger] v[k][i]),
    ensures
        forall|i: int| 0 <= i < joined(v, seq!['-']).len() ==> slug_char(#[trigger] joined(v, seq!['-'])[i]),
    decreases v.len(),
{
    if v.len() > 1 {
        let head = v.drop_last();
        assert forall|k: int, i: int| 0 <= k < head.len() && 0 <= i < head[k].len() implies slug_char(#[trigger] head[k][i]) by {
            assert(slug_char(v[k][i]));
        }
        lemma_joined_chars(head);
        let all = joined(v, seq!['-']);
        let first = joined(head, seq!['-']);
        assert forall|i: int| 0 <= i < all.len() implies slug_char(#[trigger] all[i]) by {
            if i < first.len() {
                assert(all[i] == first[i]);
            } else if i > first.len() {
                assert(all[i] == v[v.len() - 1][i - first.len() - 1]);
            }
        }
    }
}

/// A slug is never empty and is made of letters, digits and dashes alone.
pub proof fn law_slugs_are_safe(lowered: Text, i: int)
    ensures
        slug(lowered).len() > 0,
        0 <= i < slug(lowered).len() ==> slug_char(slug(lowered)[i]),
{
    reveal_strlit("provider");
    assert("provider"@ =~= seq!['p', 'r', 'o', 'v', 'i', 'd', 'e', 'r']);
    let pieces = split(dashed(lowered), '-');
    let kept = filled(pieces);
    lemma_pieces(dashed(lowered), '-');
    assert forall|k: int, j: int| 0 <= k < kept.len() && 0 <= j < kept[k].len() implies slug_char(#[trigger] kept[k][j]) by {
        assert(kept.contains(kept[k]));
        pieces.lemma_filter_contains_rev(nonempty(), kept[k]);
        let m = choose|m: int| 0 <= m < pieces.len() && pieces[m] == kept[k];
        let x = pieces[m][j];
        let n = choose|n: int| 0 <= n < dashed(lowered).len() && dashed(lowered)[n] == x;
    }
    lemma_joined_chars(kept);
}

/// Every character of every piece is a letter or a digit.
pub open spec fn plain_words(v: Seq<Text>) -> bool {
    forall|k: int, i: int| 0 <= k < v.len() && 0 <= i < v[k].len() ==> alphanumeric(#[trigger] v[k][i])
}

proof fn lemma_dashed_join(v: Seq<Text>, c: char)
    requires
        !alphanumeric(c),
        plain_words(v),
    ensures
        dashed(joined(v, seq![c])) == joined(v, seq!['-']),
    decreases v.len(),
{
    if v.len() > 1 {
        let front = v.drop_last();
        assert forall|k: int, i: int| 0 <= k < front.len() && 0 <= i < front[k].len() implies alphanumeric(#[trigger] front[k][i]) by {
            assert(front[k] == v[k]);
            assert(alphanumeric(v[k][i]));
        }
        lemma_dashed_join(front, c);
        let last = v.last();
        assert(dashed(last) =~= last) by {
            assert forall|i: int| 0 <= i < last.len() implies dashed(last)[i] == last[i] by {
                assert(alphanumeric(v[v.len() - 1][i]));
            }
        }
        assert(dashed(joined(v, seq![c])) =~= dashed(joined(front, seq![c])) + seq!['-'] + dashed(last));
    } else if v.len() == 1 {
        assert(dashed(v[0]) =~= v[0]) by {
            assert forall|i: int| 0 <= i < v[0].len() implies dashed(v[0])[i] == v[0][i] by {
                assert(alphanumeric(v[0][i]));
            }
        }
    } else {
        assert(dashed(joined(v, seq![c])) =~= joined(v, seq!['-']));
    }
}

/// A slug is made of the words of the name with dashes between them, whatever stood between them
/// before, and a name of one plain word is its own slug.
pub proof fn law_slugs_keep_the_words(v: Seq<Text>, c: char)
    requires
        v.len() > 0,
        !alphanumeric(c),
        plain_words(v),
        forall|k: int| 0 <= k < v.len() ==> (#[trigger] v[k]).len() > 0,
    ensures
        slug(joined(v, seq![c])) == joined(v, seq!['-']),
        v.len() == 1 ==> slug(v[0]) == v[0],
{
    lemma_dashed_join(v, c);
    assert forall|k: int| 0 <= k < v.len() implies !(#[trigger] v[k]).contains('-') by {
        if v[k].contains('-') {
            let i = choose|i: int| 0 <= i < v[k].len() && v[k][i] == '-';
            assert(alphanumeric(v[k][i]));
        }
    }
    law_joined_pieces_split_back(v, '-');
    lemma_all_filled(v);
    assert(joined(v, seq!['-']).len() > 0) by {
        assert(v[0].len() > 0);
        if v.len() > 1 {
            lemma_joined_front(v, seq!['-']);
        }
    }
}

/// A name without a single letter or digit gets the slug of any provider.
pub proof fn law_names_without_letters_get_a_slug(s: Text)
    requires
        forall|i: int| 0 <= i < s.len() ==> !alphanumeric(#[trigger] s[i]),
    ensures
        slug(s) == "provider"@,
{
    let pieces = split(dashed(s), '-');
    let kept = filled(pieces);
    if kept.len() > 0 {
        law_pieces_join_back(dashed(s), '-');
        lemma_pieces(dashed(s), '-');
        pieces.lemma_filter_pred(nonempty(), 0);
        assert(kept.contains(kept[0]));
        pieces.lemma_filter_contains_rev(nonempty(), kept[0]);
        let m = choose|m: int| 0 <= m < pieces.len() && pieces[m] == kept[0];
        let x = pieces[m][0];
        let n = choose|n: int| 0 <= n < dashed(s).len() && dashed(s)[n] == x;
        assert(!alphanumeric(s[n]));
        assert(x == '-');
        assert(!pieces[m].contains('-'));
    }
    assert(joined(kept, seq!['-']).len() == 0);
}

}
