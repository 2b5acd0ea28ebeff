//! What the window tells of itself: the folders that are open, the root that is looked at, and
//! how it looks.

use vstd::prelude::*;
use vstd::string::*;

use crate::doc::{confinement_error, confinement_text};
use crate::flow::graph::Text;
use crate::json::{array, as_text, entries, models, object, Json, JsonView};
use crate::text::{join2, opt_str, opt_text, same, texts, trim, trimmed};

verus! {

// ---- open folders ----

/// The folders that are open, and whether they were told yet.
pub struct Folders {
    pub open: Vec<String>,
    pub synced: bool,
}

/// The strings among the values that are not empty.
pub open spec fn named_folders(v: Seq<JsonView>) -> Seq<Text>
    decreases v.len(),
{
    if v.len() == 0 {
        Seq::empty()
    } else {
        let before = named_folders(v.drop_last());
        match as_text(v.last()) {
            Some(s) => if s.len() > 0 {
                before.push(s)
            } else {
                before
            },
            None => before,
        }
    }
}

/// The folders that a message names: of a list, the strings that are not empty; of anything
/// else, none.
pub open spec fn told_folders(v: JsonView) -> Seq<Text> {
    match v {
        JsonView::Array(items) => named_folders(items),
        _ => Seq::empty(),
    }
}

/// The window tells which folders are open. From then on they count as told, even where there
/// are none.
pub fn ws_sync(folders: &Json) -> (r: Folders)
    ensures
        texts(r.open@) == told_folders(folders.model()),
        r.synced,
{
    let mut open: Vec<String> = Vec::new();
    match folders {
        Json::Array(items) => {
            let ghost all = models(items@);
            let mut i: usize = 0;
            assert(folders.model()->Array_0 =~= all);
            assert(all.take(0) =~= Seq::<JsonView>::empty());
            assert(texts(open@) =~= Seq::<Text>::empty());
            while i < items.len()
                invariant
                    i <= items@.len(),
                    all == models(items@),
                    texts(open@) == named_folders(all.take(i as int)),
                decreases items@.len() - i,
            {
                let ghost before = open@;
                assert(all.take(i + 1).drop_last() =~= all.take(i as int));
                assert(all.take(i + 1).last() == items@[i as int].model());
                if let Json::Text(s) = &items[i] {
                    if s.unicode_len() > 0 {
                        open.push(s.clone());
                        assert(texts(open@) =~= texts(before).push(s@));
                    }
                }
                i += 1;
            }
            assert(all.take(all.len() as int) =~= all);
        },
        _ => {
            assert(texts(open@) =~= Seq::<Text>::empty());
        },
    }
    Folders { open, synced: true }
}

// ---- the root that is looked at ----

/// The root that is asked for; none where it is to be forgotten.
pub open spec fn wanted_root(root: Option<Text>) -> Option<Text> {
    match root {
        Some(r) => if trimmed(r).len() > 0 {
            Some(trimmed(r))
        } else {
            None
        },
        None => None,
    }
}

/// The root that is asked for; none where it is to be forgotten.
pub fn root_request(root: Option<&str>) -> (r: Option<String>)
    ensures
        opt_text(r) == wanted_root(opt_str(root)),
{
    match root {
        Some(s) => {
            let name = trim(s);
            if name.unicode_len() == 0 {
                None
            } else {
                Some(name)
            }
        },
        None => None,
    }
}

/// The root from now on. `place` is where the root that is asked for leads, or why it may not be
/// one; a root that may not be one changes nothing.
pub fn conductor_set_root(current: &mut Option<String>, root: Option<&str>, place: Result<String, String>) -> (r: Result<(), String>)
    ensures
        match wanted_root(opt_str(root)) {
            None => r is Ok && *final(current) is None,
            Some(_) => match place {
                Ok(p) => r is Ok && opt_text(*final(current)) == Some(p@),
                Err(e) => (r matches Err(x) && x@ == "conductor:cwd: "@ + e@) && *final(current) == *old(current),
            },
        },
{
    match root_request(root) {
        None => {
            *current = None;
            Ok(())
        },
        Some(_) => match place {
            Ok(p) => {
                *current = Some(p);
                Ok(())
            },
            Err(e) => Err(join2("conductor:cwd: ", &e)),
        },
    }
}

/// The workspace of a graph, or why it may not be one.
pub fn confine_ws(place: Result<String, String>) -> (r: Result<String, String>)
    ensures
        match place {
            Ok(p) => (r matches Ok(q) && q@ == p@),
            Err(e) => (r matches Err(x) && x@ == "graphify: "@ + e@),
        },
{
    match place {
        Ok(p) => Ok(p),
        Err(e) => Err(join2("graphify: ", &e)),
    }
}

/// What opening a path with the system comes to: nothing said where it worked. `opened` is how it
/// went, where the path lies in the workspace.
pub fn shell_open_path(opened: Option<Result<(), String>>, folders_synced: bool) -> (r: String)
    ensures
        r@ == match opened {
            None => confinement_text("shell:openPath"@, folders_synced),
            Some(Ok(_)) => Seq::empty(),
            Some(Err(e)) => e@,
        },
{
    match opened {
        None => confinement_error("shell:openPath", folders_synced),
        Some(Ok(_)) => {
            let nothing = String::new();
            assert(nothing@ =~= Seq::<char>::empty());
            nothing
        },
        Some(Err(e)) => e,
    }
}

// ---- how it looks ----

/// The colour behind everything.
pub fn window_bg(mode: &str) -> (r: String)
    ensures
        r@ == if mode@ == "dark"@ { "#050508"@ } else { "#eeeef2"@ },
{
    if same(mode, "dark") {
        "#050508".to_owned()
    } else {
        "#eeeef2".to_owned()
    }
}

pub struct Theme {
    pub pref: String,
    pub mode: String,
    pub background: String,
}

pub open spec fn theme_pref(pref: Option<Text>) -> Text {
    if pref == Some("light"@) {
        "light"@
    } else if pref == Some("dark"@) {
        "dark"@
    } else {
        "system"@
    }
}

pub open spec fn theme_mode(mode: Option<Text>) -> Text {
    if mode == Some("dark"@) {
        "dark"@
    } else {
        "light"@
    }
}

/// The look that is asked for: anything that is neither light nor dark follows the system, and
/// anything that is not dark is light.
pub fn theme_set(pref: Option<&str>, mode: Option<&str>) -> (r: Theme)
    ensures
        r.pref@ == theme_pref(opt_str(pref)),
        r.mode@ == theme_mode(opt_str(mode)),
        r.background@ == if r.mode@ == "dark"@ { "#050508"@ } else { "#eeeef2"@ },
{
    let wanted = match pref {
        Some(p) => if same(p, "light") {
            "light".to_owned()
        } else if same(p, "dark") {
            "dark".to_owned()
        } else {
            "system".to_owned()
        },
        None => "system".to_owned(),
    };
    let shade = match mode {
        Some(m) => if same(m, "dark") {
            "dark".to_owned()
        } else {
            "light".to_owned()
        },
        None => "light".to_owned(),
    };
    let background = window_bg(&shade);
    Theme { pref: wanted, mode: shade, background }
}

// ---- other answers ----

pub open spec fn agent_entry(name: Text) -> JsonView {
    JsonView::Object(seq![("name"@, JsonView::Text(name)), ("available"@, JsonView::Bool(true))])
}

/// The agents that can be started.
pub fn agents_list(names: &Vec<String>) -> (r: Json)
    ensures
        r.model() == JsonView::Array(texts(names@).map_values(|n: Text| agent_entry(n))),
{
    let mut out: Vec<Json> = Vec::new();
    let mut i: usize = 0;
    while i < names.len()
        invariant
            i <= names@.len(),
            out@.len() == i,
            forall|j: int| 0 <= j < i ==> (#[trigger] out@[j]).model() == agent_entry(names@[j]@),
        decreases names@.len() - i,
    {
        let fields = vec![("name".to_owned(), Json::Text(names[i].clone())), ("available".to_owned(), Json::Bool(true))];
        assert(entries(fields@) =~= seq![("name"@, JsonView::Text(names@[i as int]@)), ("available"@, JsonView::Bool(true))]);
        out.push(object(fields));
        i += 1;
    }
    assert(models(out@) =~= texts(names@).map_values(|n: Text| agent_entry(n)));
    array(out)
}

/// What reading a skill comes to: whether there is a folder of skills, and whether the skill is
/// in it.
pub fn skills_read(root: bool, found: bool, name: &str) -> (r: Result<(), String>)
    ensures
        r is Ok <==> root && found,
        r matches Err(e) ==> e@ == if !root { "skills directory unavailable"@ } else { "skill not found: "@ + name@ },
{
    if !root {
        Err("skills directory unavailable".to_owned())
    } else if !found {
        Err(join2("skill not found: ", name))
    } else {
        Ok(())
    }
}

/// The provider that a key is for.
pub fn opencode_key_set(provider: &str) -> (r: Result<String, String>)
    ensures
        match r {
            Ok(p) => trimmed(provider@).len() > 0 && p@ == trimmed(provider@),
            Err(e) => trimmed(provider@).len() == 0 && e@ == "A provider id is required."@,
        },
{
    let name = trim(provider);
    if name.unicode_len() == 0 {
        Err("A provider id is required.".to_owned())
    } else {
        Ok(name)
    }
}

/// The answer to a question that the assistant asked back: what was answered, or that it was
/// skipped.
pub fn mentor_answer(answers: Option<Json>, skip: Option<bool>) -> (r: Vec<(String, Json)>)
    ensures
        entries(r@) == seq![
            ("answers"@, match answers {
                Some(a) => a.model(),
                None => JsonView::Null,
            }),
            ("skip"@, JsonView::Bool(skip == Some(true))),
        ],
{
    let given = match answers {
        Some(a) => a,
        None => Json::Null,
    };
    let skipped = match skip {
        Some(b) => b,
        None => false,
    };
    let mut out: Vec<(String, Json)> = Vec::new();
    out.push(("answers".to_owned(), given));
    out.push(("skip".to_owned(), Json::Bool(skipped)));
    assert(entries(out@) =~= seq![
        ("answers"@, match answers {
            Some(a) => a.model(),
            None => JsonView::Null,
        }),
        ("skip"@, JsonView::Bool(skip == Some(true))),
    ]);
    out
}

// ---- notes ----

/// How writing a note went.
pub enum WriteOutcome {
    Written,
    /// A note of that name is there, and it was not to be overwritten.
    Exists,
}

/// What writing a note is answered.
pub fn brain_write(outcome: WriteOutcome) -> (r: Vec<(String, Json)>)
    ensures
        entries(r@) == seq![(if outcome is Written { "ok"@ } else { "exists"@ }, JsonView::Bool(true))],
{
    let key = match outcome {
        WriteOutcome::Written => "ok",
        WriteOutcome::Exists => "exists",
    };
    let out = vec![(key.to_owned(), Json::Bool(true))];
    assert(entries(out@) =~= seq![(key@, JsonView::Bool(true))]);
    out
}

/// How moving a note to the shared vault went.
pub enum PromoteOutcome {
    /// It is there now, under this path.
    Promoted { rel: String },
    /// A note of that name is there.
    Collision,
}

/// What moving a note to the shared vault is answered.
pub fn brain_promote(outcome: PromoteOutcome) -> (r: Vec<(String, Json)>)
    ensures
        entries(r@) == match outcome {
            PromoteOutcome::Promoted { rel } => seq![("ok"@, JsonView::Bool(true)), ("rel"@, JsonView::Text(rel@))],
            PromoteOutcome::Collision => seq![("collision"@, JsonView::Bool(true))],
        },
{
    match outcome {
        PromoteOutcome::Promoted { rel } => {
            let ghost place = rel@;
            let out = vec![("ok".to_owned(), Json::Bool(true)), ("rel".to_owned(), Json::Text(rel))];
            assert(entries(out@) =~= seq![("ok"@, JsonView::Bool(true)), ("rel"@, JsonView::Text(place))]);
            out
        },
        PromoteOutcome::Collision => {
            let out = vec![("collision".to_owned(), Json::Bool(true))];
            assert(entries(out@) =~= seq![("collision"@, JsonView::Bool(true))]);
            out
        },
    }
}

/// The answer of a command that does nothing yet.
pub fn unimplemented_command(name: &str) -> (r: String)
    ensures
        r@ == "unimplemented: "@ + name@,
{
    join2("unimplemented: ", name)
}

/// The folders that were told are the ones that are kept, in order: texts that are not empty, and
/// nothing else of the list.
pub proof fn law_told_folders_are_kept(v: Seq<Text>)
    requires
        forall|k: int| 0 <= k < v.len() ==> (#[trigger] v[k]).len() > 0,
    ensures
        told_folders(JsonView::Array(v.map_values(|s: Text| JsonView::Text(s)))) == v,
    decreases v.len(),
{
    let items = v.map_values(|s: Text| JsonView::Text(s));
    if v.len() > 0 {
        let front = v.drop_last();
        assert forall|k: int| 0 <= k < front.len() implies (#[trigger] front[k]).len() > 0 by {
            assert(front[k] == v[k]);
        }
        law_told_folders_are_kept(front);
        assert(items.drop_last() =~= front.map_values(|s: Text| JsonView::Text(s)));
        assert(items.last() == JsonView::Text(v.last()));
        assert(v[v.len() - 1].len() > 0);
        assert(named_folders(items) =~= v);
    } else {
        assert(named_folders(items) =~= v);
    }
}

/// What is kept as a folder was told as one: a text of the list that is not empty. What is no list
/// tells none.
pub proof fn law_only_told_folders_are_kept(items: Seq<JsonView>, s: Text, v: JsonView)
    ensures
        told_folders(JsonView::Array(items)).contains(s) <==> s.len() > 0 && items.contains(JsonView::Text(s)),
        !(v is Array) ==> told_folders(v).len() == 0,
    decreases items.len(),
{
    if items.len() > 0 {
        let front = items.drop_last();
        law_only_told_folders_are_kept(front, s, v);
        let before = named_folders(front);
        let all = named_folders(items);
        if all.contains(s) {
            let k = choose|k: int| 0 <= k < all.len() && all[k] == s;
            if k < before.len() {
                assert(before[k] == s);
                let j = choose|j: int| 0 <= j < front.len() && front[j] == JsonView::Text(s);
                assert(items[j] == JsonView::Text(s));
            } else {
                assert(items[items.len() - 1] == JsonView::Text(s));
            }
        }
        if s.len() > 0 && items.contains(JsonView::Text(s)) {
            let j = choose|j: int| 0 <= j < items.len() && items[j] == JsonView::Text(s);
            if j < front.len() {
                assert(front[j] == JsonView::Text(s));
                let k = choose|k: int| 0 <= k < before.len() && before[k] == s;
                assert(all[k] == s);
            } else {
                assert(all[before.len() as int] == s);
            }
        }
    }
}

/// A root that was named is wanted without the blanks around it, and blanks alone name none.
pub proof fn law_blank_roots_name_none(r: Text)
    ensures
        trimmed(r).len() > 0 ==> wanted_root(Some(r)) == Some(trimmed(r)),
        trimmed(r).len() == 0 ==> wanted_root(Some(r)) is None,
        wanted_root(None) is None,
{
}

/// A theme that was chosen is the one that is shown: light and dark as they were named, and the
/// system's, or light where there is only light and dark, for anything else.
pub proof fn law_chosen_themes_are_shown(t: Text)
    ensures
        theme_pref(Some("light"@)) == "light"@ && theme_pref(Some("dark"@)) == "dark"@,
        t != "light"@ && t != "dark"@ ==> theme_pref(Some(t)) == "system"@,
        theme_pref(None) == "system"@,
        theme_mode(Some("dark"@)) == "dark"@,
        t != "dark"@ ==> theme_mode(Some(t)) == "light"@,
        theme_mode(None) == "light"@,
{
    reveal_strlit("light");
    reveal_strlit("dark");
    assert("light"@.len() == 5 && "dark"@.len() == 4);
}

/// An agent is listed under its name, as one that is there.
pub proof fn law_agents_are_listed_by_name(name: Text)
    ensures
        agent_entry(name) is Object,
        agent_entry(name)->Object_0.contains(("name"@, JsonView::Text(name))),
        agent_entry(name)->Object_0.contains(("available"@, JsonView::Bool(true))),
{
    let o = agent_entry(name)->Object_0;
    assert(o[0] == ("name"@, JsonView::Text(name)) && o[1] == ("available"@, JsonView::Bool(true)));
}

}
