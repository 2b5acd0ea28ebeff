//! Other machines whose runs can be looked at, each agreed to by the user before.

use vstd::prelude::*;
use vstd::string::*;

use crate::flow::graph::Text;
use crate::listing::{list_records, Listed};
use crate::records::{choose_id, chosen_id, drop_all, find, first_with, keys_of, lemma_first_with, others, position, Record};
use crate::sorting::in_order;
use crate::text::{opt_text, same};

verus! {

/// A machine and a folder on it.
pub struct RemoteSource {
    pub id: String,
    pub label: String,
    pub host: String,
    pub repo_path: String,
    /// A hash over the other fields, as they were when the user agreed.
    pub hash: String,
}

impl Record for RemoteSource {
    open spec fn key(self) -> Text {
        self.id@
    }

    fn named(&self, id: &str) -> (r: bool) {
        same(&self.id, id)
    }
}

/// The sources, as they are shown: by their labels.
pub fn remote_sources(list: Vec<Listed>) -> (r: Vec<Listed>)
    ensures
        r@ == in_order(list@),
{
    list_records(list)
}

/// The source of this id. `verified` says whether it still reads as it did when the user agreed
/// to it, or why not.
pub fn resolve_source<'a>(sources: &'a Vec<RemoteSource>, id: &str, verified: Result<(), String>) -> (r: Result<&'a RemoteSource, String>)
    ensures
        match r {
            Ok(s) => first_with(sources@, id@) == Some(*s) && verified is Ok,
            Err(e) => if first_with(sources@, id@) is None {
                e@ == "no such remote source"@
            } else {
                verified is Err && e@ == verified->Err_0@
            },
        },
{
    match find(sources, id) {
        None => Err("no such remote source".to_owned()),
        Some(s) => match verified {
            Ok(_) => Ok(s),
            Err(e) => Err(e),
        },
    }
}

/// The id under which a source is noted: the one asked for where there is a source of it, else
/// the fresh one.
pub fn source_id(sources: &Vec<RemoteSource>, id: Option<String>, fresh: String) -> (r: String)
    ensures
        r@ == chosen_id(sources@, opt_text(id), fresh@),
{
    choose_id(sources, id, fresh)
}

/// Takes note of a source, in place of any of the same id.
pub fn remote_consent(sources: &mut Vec<RemoteSource>, source: RemoteSource)
    ensures
        final(sources)@ == others(old(sources)@, source.id@).push(source),
{
    let mut before: Vec<RemoteSource> = Vec::new();
    std::mem::swap(&mut before, sources);
    let mut kept = drop_all(before, &source.id);
    kept.push(source);
    *sources = kept;
}

/// `i` is the first source with this id.
pub open spec fn is_source(sources: Seq<RemoteSource>, id: Text, i: int) -> bool {
    0 <= i < sources.len() && sources[i].id@ == id && forall|j: int| 0 <= j < i ==> (#[trigger] sources[j]).id@ != id
}

/// Takes a source back; its label, where there was one.
pub fn remote_revoke(sources: &mut Vec<RemoteSource>, id: &str) -> (r: Option<String>)
    ensures
        match r {
            None => !keys_of(old(sources)@).contains(id@) && final(sources)@ == old(sources)@,
            Some(l) => exists|i: int| #[trigger]
                is_source(old(sources)@, id@, i) && final(sources)@ == old(sources)@.remove(i) && l@ == old(sources)@[i].label@,
        },
{
    match position(sources, id) {
        Some(i) => {
            let gone = sources.remove(i);
            proof {
                assert forall|j: int| 0 <= j < i implies (#[trigger] old(sources)@[j]).id@ != id@ by {
                    assert(old(sources)@[j].key() != id@);
                }
                assert(is_source(old(sources)@, id@, i as int));
            }
            Some(gone.label)
        },
        None => None,
    }
}

/// Where no id occurs twice, a source that was noted is the one that its id finds, and one that
/// was taken back is not found any more.
pub proof fn law_sources_are_kept_until_revoked(sources: Seq<RemoteSource>, source: RemoteSource, i: int)
    requires
        keys_of(sources).no_duplicates(),
    ensures
        keys_of(others(sources, source.id@).push(source)).no_duplicates(),
        first_with(others(sources, source.id@).push(source), source.id@) == Some(source),
        is_source(sources, source.id@, i) ==> !keys_of(sources.remove(i)).contains(source.id@),
{
    let id = source.id@;
    let kept = others(sources, id);
    crate::records::lemma_others(sources, id);
    lemma_distinct_others(sources, id);
    let after = kept.push(source);
    assert(keys_of(after) =~= keys_of(kept).push(id));
    lemma_first_with(after, id);
    assert(keys_of(after)[kept.len() as int] == id);
    let found = first_with(after, id)->0;
    let k = choose|k: int| 0 <= k < after.len() && after[k] == found;
    assert(keys_of(after)[k] == id);
    if is_source(sources, id, i) {
        let rest = sources.remove(i);
        if keys_of(rest).contains(id) {
            let j = choose|j: int| 0 <= j < keys_of(rest).len() && keys_of(rest)[j] == id;
            let from = if j < i { j } else { j + 1 };
            assert(rest[j] == sources[from]);
            assert(keys_of(sources)[from] == keys_of(sources)[i]);
        }
    }
}

proof fn lemma_distinct_others(v: Seq<RemoteSource>, id: Text)
    requires
        keys_of(v).no_duplicates(),
    ensures
        keys_of(others(v, id)).no_duplicates(),
    decreases v.len(),
{
    reveal(Seq::filter);
    if v.len() > 0 {
        let head = v.drop_last();
        assert(keys_of(head) =~= keys_of(v).drop_last());
        lemma_distinct_others(head, id);
        if v.last().key() != id {
            let kept = others(head, id);
            crate::records::lemma_others(head, id);
            let all = kept.push(v.last());
            assert(keys_of(all) =~= keys_of(kept).push(v.last().key()));
            assert forall|a: int, b: int| 0 <= a < b < keys_of(all).len() implies keys_of(all)[a] != keys_of(all)[b] by {
                if b == kept.len() {
                    assert(kept.contains(kept[a]));
                    assert(head.contains(kept[a]));
                    let k = choose|k: int| 0 <= k < head.len() && head[k] == kept[a];
                    assert(keys_of(v)[k] != keys_of(v)[v.len() - 1]);
                }
            }
        }
    }
}

}
