//! The assistant's hands on flows: listing, reading and drafting them. Only
//! `<root>/.tome/flows/<name>.flow.json` can ever be touched, and only where it really lies inside
//! the workspace: see [`crate::flow::confine::write_probes`].

use vstd::prelude::*;
use vstd::string::*;

use crate::flow::graph::Text;
use crate::json::{entries, field, law_fields_read_back, lookup, put, with_field, Json, JsonView};
use crate::paths::{join_path, law_joined_names_are_inside, path_join, path_parts, path_starts_with, plain_name, under, Part};
use crate::text::{
    begins, copy_texts, decimal, decimal_u64, ends, has_char, join, join2, join3, joined, law_beginnings_and_ends, opt_str, opt_text, same,
    strip_suffix, texts, trim, trimmed,
};

verus! {

pub const SUFFIX: &'static str = ".flow.json";

/// Where the flows of a workspace live.
pub open spec fn flows_dir_text(root: Text) -> Text {
    path_join(path_join(root, ".tome"@), "flows"@)
}

/// Where the flows of a workspace live.
pub fn flows_dir(root: &str) -> (r: String)
    ensures
        r@ == flows_dir_text(root@),
{
    let a = join_path(root, ".tome");
    join_path(&a, "flows")
}

// ---- which root ----

pub enum PickedRoot<'a> {
    Root(&'a str),
    Error(String),
}

/// The root a flow lives under: the first open folder, or the one asked for, which must be one
/// of them to the letter.
pub fn pick_root<'a>(roots: &'a Vec<String>, wanted: Option<&str>) -> (r: PickedRoot<'a>)
    ensures
        roots@.len() == 0 ==> (r matches PickedRoot::Error(e) && e@ == "No workspace folder is open yet — open a folder first."@),
        roots@.len() > 0 && wanted is None ==> (r matches PickedRoot::Root(p) && p@ == roots@[0]@),
        roots@.len() > 0 && wanted is Some && texts(roots@).contains(wanted->0@) ==> (r matches PickedRoot::Root(p) && p@ == wanted->0@),
        roots@.len() > 0 && wanted is Some && !texts(roots@).contains(wanted->0@) ==> (r matches PickedRoot::Error(e) && e@
            == "Unknown root. Open workspace folders: "@ + joined(texts(roots@), ", "@)),
{
    if roots.len() == 0 {
        return PickedRoot::Error("No workspace folder is open yet — open a folder first.".to_owned());
    }
    match wanted {
        None => PickedRoot::Root(roots[0].as_str()),
        Some(w) => {
            let mut i: usize = 0;
            while i < roots.len()
                invariant
                    i <= roots@.len(),
                    roots@.len() > 0,
                    wanted == Some(w),
                    forall|j: int| 0 <= j < i ==> #[trigger] texts(roots@)[j] != w@,
                decreases roots@.len() - i,
            {
                if same(&roots[i], w) {
                    assert(texts(roots@)[i as int] == w@);
                    return PickedRoot::Root(roots[i].as_str());
                }
                i += 1;
            }
            let list = join(roots, ", ");
            PickedRoot::Error(join2("Unknown root. Open workspace folders: ", &list))
        },
    }
}

// ---- which name ----

/// A name that cannot be one folder or file: it holds a separator, or is `..`.
pub open spec fn unsafe_name(name: Text) -> bool {
    name.contains('/') || name.contains('\\') || name == ".."@
}

pub fn unsafe_folder_name(name: &str) -> (r: bool)
    ensures
        r == unsafe_name(name@),
{
    has_char(name, '/') || has_char(name, '\\') || same(name, "..")
}

/// Why a name is refused, before anything is resolved; `None` for a name that is fine.
pub open spec fn name_refusal(name: Text) -> Option<Text> {
    if trimmed(name).len() == 0 {
        Some("Flow name must be a non-empty string."@)
    } else if unsafe_name(name) {
        Some("Flow name \""@ + name + "\" can't contain \"/\", \"\\\", or be \"..\"."@)
    } else {
        None
    }
}

/// Why a name is refused.
pub fn bad_name(name: &str) -> (r: Option<String>)
    ensures
        opt_text(r) == name_refusal(name@),
{
    let bare = trim(name);
    if bare.as_str().is_empty() {
        return Some("Flow name must be a non-empty string.".to_owned());
    }
    if unsafe_folder_name(name) {
        return Some(join3("Flow name \"", name, "\" can't contain \"/\", \"\\\", or be \"..\"."));
    }
    None
}

/// The file of a flow, where it is spelled inside the workspace's flows and is not their folder.
pub open spec fn flow_file(root: Text, name: Text) -> Option<Text> {
    let dir = flows_dir_text(root);
    let file = path_join(dir, name + ".flow.json"@);
    if under(file, dir) && path_parts(file) != path_parts(dir) {
        Some(file)
    } else {
        None
    }
}

/// The file of a flow.
pub fn flow_path(root: &str, name: &str) -> (r: Option<String>)
    ensures
        opt_text(r) == flow_file(root@, name@),
{
    let dir = flows_dir(root);
    let leaf = join2(name, ".flow.json");
    let file = join_path(&dir, &leaf);
    let below = path_starts_with(&file, &dir);
    let above = path_starts_with(&dir, &file);
    proof {
        let a = path_parts(file@);
        let b = path_parts(dir@);
        if below && above {
            assert(a.take(b.len() as int) =~= a);
        }
        if a == b {
            assert(a.take(a.len() as int) =~= a);
        }
    }
    if below && !above {
        Some(file)
    } else {
        None
    }
}

// ---- reading ----

/// What a request to read flows comes to.
pub enum ReadFlow {
    /// The answer, without a look at the disk.
    Answer(String),
    /// List the flows of these roots.
    List(Vec<String>),
    /// Answer with the first of these files that exists and can be read: each with its root.
    Look(Vec<(String, String)>),
}

/// The roots to search: the one asked for, or all of them.
pub open spec fn search_roots(roots: Seq<Text>, wanted: Option<Text>) -> Seq<Text> {
    match wanted {
        Some(w) => seq![w],
        None => roots,
    }
}

/// The files to look at for a flow, root by root.
pub open spec fn files_for(roots: Seq<Text>, name: Text) -> Seq<(Text, Text)>
    decreases roots.len(),
{
    if roots.len() == 0 {
        Seq::empty()
    } else {
        let before = files_for(roots.drop_last(), name);
        match flow_file(roots.last(), name) {
            Some(f) => before.push((roots.last(), f)),
            None => before,
        }
    }
}

pub open spec fn pair_views(v: Seq<(String, String)>) -> Seq<(Text, Text)> {
    v.map_values(|e: (String, String)| (e.0@, e.1@))
}

/// The refusal of a root, if there is one.
pub open spec fn root_refusal(roots: Seq<Text>, wanted: Option<Text>) -> Option<Text> {
    if roots.len() == 0 {
        Some("No workspace folder is open yet — open a folder first."@)
    } else {
        match wanted {
            Some(w) => if roots.contains(w) { None } else { Some("Unknown root. Open workspace folders: "@ + joined(roots, ", "@)) },
            None => None,
        }
    }
}

/// What to do about a request to read flows: a bad root or a bad name is answered at once,
/// without a name the flows are listed, with one the flow is looked up.
pub fn read_flow_tool(roots: &Vec<String>, root_arg: Option<&str>, name: Option<&str>) -> (r: ReadFlow)
    ensures
        match root_refusal(texts(roots@), opt_str(root_arg)) {
            Some(e) => r matches ReadFlow::Answer(a) && a@ == e,
            None => match opt_str(name) {
                None => r matches ReadFlow::List(v) && texts(v@) == search_roots(texts(roots@), opt_str(root_arg)),
                Some(n) => match name_refusal(n) {
                    Some(e) => r matches ReadFlow::Answer(a) && a@ == e,
                    None => r matches ReadFlow::Look(v) && pair_views(v@) == files_for(search_roots(texts(roots@), opt_str(root_arg)), n),
                },
            },
        },
{
    let picked = match pick_root(roots, root_arg) {
        PickedRoot::Error(e) => return ReadFlow::Answer(e),
        PickedRoot::Root(p) => p.to_owned(),
    };
    let search: Vec<String> = match root_arg {
        Some(_) => {
            let mut one: Vec<String> = Vec::new();
            one.push(picked);
            assert(texts(one@) =~= seq![picked@]);
            one
        },
        None => copy_texts(roots),
    };
    let ghost all = search_roots(texts(roots@), opt_str(root_arg));
    assert(texts(search@) == all);
    let wanted = match name {
        None => return ReadFlow::List(search),
        Some(n) => n,
    };
    if let Some(bad) = bad_name(wanted) {
        return ReadFlow::Answer(bad);
    }
    let mut files: Vec<(String, String)> = Vec::new();
    let mut i: usize = 0;
    assert(all.take(0) =~= Seq::<Text>::empty());
    assert(pair_views(files@) =~= Seq::<(Text, Text)>::empty());
    while i < search.len()
        invariant
            i <= search@.len(),
            texts(search@) == all,
            pair_views(files@) == files_for(all.take(i as int), wanted@),
        decreases search@.len() - i,
    {
        let ghost before = pair_views(files@);
        assert(all.take(i + 1).drop_last() =~= all.take(i as int));
        assert(all.take(i + 1).last() == search@[i as int]@);
        match flow_path(&search[i], wanted) {
            Some(f) => {
                let ghost pair = (search@[i as int]@, f@);
                files.push((search[i].clone(), f));
                assert(pair_views(files@) =~= before.push(pair));
            },
            None => {},
        }
        i += 1;
    }
    assert(all.take(all.len() as int) =~= all);
    ReadFlow::Look(files)
}

/// The names that the files of one root give to the list; anything but a flow is passed over.
pub open spec fn listed(root: Text, many: bool, files: Seq<Text>) -> Seq<Text>
    decreases files.len(),
{
    if files.len() == 0 {
        Seq::empty()
    } else {
        let before = listed(root, many, files.drop_last());
        let f = files.last();
        if ends(f, ".flow.json"@) {
            let stem = f.take(f.len() - ".flow.json"@.len());
            before.push(if many { stem + " (in "@ + root + ")"@ } else { stem })
        } else {
            before
        }
    }
}

/// Adds to `names` what the files of one root give to the list.
pub fn list_names(names: &mut Vec<String>, root: &str, many: bool, files: &Vec<String>)
    ensures
        texts(final(names)@) == texts(old(names)@) + listed(root@, many, texts(files@)),
{
    let ghost head = texts(names@);
    let ghost all = texts(files@);
    let mut i: usize = 0;
    assert(all.take(0) =~= Seq::<Text>::empty());
    assert(head + listed(root@, many, all.take(0)) =~= head);
    while i < files.len()
        invariant
            i <= files@.len(),
            all == texts(files@),
            texts(names@) == head + listed(root@, many, all.take(i as int)),
        decreases files@.len() - i,
    {
        let ghost before = texts(names@);
        let ghost so_far = listed(root@, many, all.take(i as int));
        assert(all.take(i + 1).drop_last() =~= all.take(i as int));
        assert(all.take(i + 1).last() == files@[i as int]@);
        match strip_suffix(&files[i], ".flow.json") {
            Some(stem) => {
                let shown = if many {
                    let mut s = join3(&stem, " (in ", root);
                    s.append(")");
                    s
                } else {
                    stem
                };
                let ghost t = shown@;
                names.push(shown);
                assert(texts(names@) =~= before.push(t));
                assert(before.push(t) =~= head + so_far.push(t));
            },
            None => {},
        }
        i += 1;
    }
    assert(all.take(all.len() as int) =~= all);
}

/// The list of flows, one to a line.
pub fn list_reply(names: &Vec<String>) -> (r: String)
    ensures
        r@ == if names@.len() == 0 { "No flows exist yet."@ } else { joined(texts(names@), "\n"@) },
{
    if names.len() == 0 {
        "No flows exist yet.".to_owned()
    } else {
        join(names, "\n")
    }
}

/// The answer when no file of that name could be read.
pub fn read_miss(name: &str) -> (r: String)
    ensures
        r@ == "No flow named \""@ + name@ + "\". Call read_flow without a name to list them."@,
{
    join3("No flow named \"", name, "\". Call read_flow without a name to list them.")
}

/// A name that is not refused names exactly one file: the one of that name directly in the
/// workspace's flows.
pub proof fn law_good_names_stay_in_place(root: Text, name: Text)
    requires
        name_refusal(name) is None,
    ensures
        flow_file(root, name) == Some(flows_dir_text(root) + "/"@ + name + ".flow.json"@),
        path_parts(flow_file(root, name)->0) == path_parts(flows_dir_text(root)).push(crate::paths::Part::Name(name + ".flow.json"@)),
        crate::paths::inside(flows_dir_text(root), flow_file(root, name)->0),
{
    reveal_strlit(".flow.json");
    reveal_strlit("flows");
    reveal_strlit("/");
    reveal_strlit(".tome");
    let leaf = name + ".flow.json"@;
    let dir = flows_dir_text(root);
    let mid = path_join(root, ".tome"@);
    assert(mid.last() == 'e') by {
        assert(".tome"@.last() == 'e');
    }
    assert(dir == mid + seq!['/'] + "flows"@);
    assert(dir.last() == 's');
    assert(!leaf.contains('/')) by {
        if leaf.contains('/') {
            let i = choose|i: int| 0 <= i < leaf.len() && leaf[i] == '/';
            if i < name.len() {
                assert(name[i] == '/');
            } else {
                assert(".flow.json"@[i - name.len()] == '/');
            }
        }
    }
    assert(name.len() > 0) by {
        if name.len() == 0 {
            assert(trimmed(name) =~= name);
        }
    }
    let file = path_join(dir, leaf);
    assert(leaf.len() > 2);
    assert(leaf != seq!['.'] && leaf != seq!['.', '.']);
    law_joined_names_are_inside(dir, leaf);
    assert("/"@ =~= seq!['/']);
    assert(file =~= dir + "/"@ + name + ".flow.json"@);
}

// ---- drafting ----

pub struct DraftResult {
    pub text: String,
    pub open_path: Option<String>,
}

/// A draft that may be checked: the root it goes to, and the document with what it lacked
/// filled in.
pub struct Draft {
    pub root: String,
    pub doc: Vec<(String, Json)>,
}

/// The document with a missing or null field set to `value`.
pub open spec fn defaulted(o: Seq<(Text, JsonView)>, key: Text, value: JsonView) -> Seq<(Text, JsonView)> {
    if field(o, key) is Null {
        with_field(o, key, value)
    } else {
        o
    }
}

/// The document with nodes and edges.
pub open spec fn with_lists(o: Seq<(Text, JsonView)>) -> Seq<(Text, JsonView)> {
    defaulted(defaulted(o, "nodes"@, JsonView::Array(Seq::empty())), "edges"@, JsonView::Array(Seq::empty()))
}

/// The document with nodes, edges and a version, under the vetted name.
pub open spec fn completed(o: Seq<(Text, JsonView)>, name: Text) -> Seq<(Text, JsonView)> {
    with_field(defaulted(with_lists(o), "version"@, JsonView::Number(seq!['1'])), "name"@, JsonView::Text(name))
}

proof fn lemma_field_words()
    ensures
        "nodes"@ != "edges"@ && "nodes"@ != "version"@ && "nodes"@ != "name"@,
        "edges"@ != "version"@ && "edges"@ != "name"@ && "version"@ != "name"@,
{
    reveal_strlit("nodes");
    reveal_strlit("edges");
    reveal_strlit("version");
    reveal_strlit("name");
    assert("nodes"@[1] == 'o');
    assert("name"@[1] == 'a');
    assert("edges"@[1] == 'd');
    assert("version"@[1] == 'e');
}

/// A document that is taken carries the name of its file, has nodes, edges and a version, and is
/// otherwise the one that was handed in.
pub proof fn law_drafts_follow_their_file(roots: Seq<Text>, wanted: Option<Text>, name: Text, o: Seq<(Text, JsonView)>, other: Text)
    requires
        draft_refusal(roots, wanted, Some(name), Some(JsonView::Object(o))) is None,
    ensures
        field(completed(o, name), "name"@) == JsonView::Text(name),
        field(completed(o, name), "nodes"@) is Array,
        field(completed(o, name), "edges"@) is Array,
        !(field(completed(o, name), "version"@) is Null),
        other != "name"@ && !(field(o, other) is Null) ==> field(completed(o, name), other) == field(o, other),
{
    lemma_field_words();
    let none = JsonView::Array(Seq::empty());
    let a = defaulted(o, "nodes"@, none);
    let b = defaulted(a, "edges"@, none);
    let c = defaulted(b, "version"@, JsonView::Number(seq!['1']));
    law_fields_read_back(c, "name"@, JsonView::Text(name), "nodes"@);
    law_fields_read_back(c, "name"@, JsonView::Text(name), "edges"@);
    law_fields_read_back(c, "name"@, JsonView::Text(name), "version"@);
    law_fields_read_back(c, "name"@, JsonView::Text(name), other);
    law_fields_read_back(b, "version"@, JsonView::Number(seq!['1']), "nodes"@);
    law_fields_read_back(b, "version"@, JsonView::Number(seq!['1']), "edges"@);
    law_fields_read_back(b, "version"@, JsonView::Number(seq!['1']), other);
    law_fields_read_back(a, "edges"@, none, other);
    law_fields_read_back(o, "nodes"@, none, other);
}

/// Why a draft is refused before its structure is looked at.
pub open spec fn draft_refusal(roots: Seq<Text>, wanted: Option<Text>, name: Option<Text>, flow: Option<JsonView>) -> Option<Text> {
    match name {
        None => Some("Flow name must be a non-empty string."@),
        Some(n) => match name_refusal(n) {
            Some(e) => Some(e),
            None => match root_refusal(roots, wanted) {
                Some(e) => Some(e),
                None => match flow {
                    Some(JsonView::Object(o)) => if field(with_lists(o), "nodes"@) is Array && field(with_lists(o), "edges"@) is Array {
                        None
                    } else {
                        Some("flow.nodes and flow.edges must be arrays."@)
                    },
                    _ => Some("draft_flow needs a flow object: {version, name, nodes, edges}."@),
                },
            },
        },
    }
}

pub open spec fn flow_view(flow: Option<Json>) -> Option<JsonView> {
    match flow {
        Some(j) => Some(j.model()),
        None => None,
    }
}

fn refused(text: String) -> (r: DraftResult)
    ensures
        r.text@ == text@,
        r.open_path is None,
{
    DraftResult { text, open_path: None }
}

fn fill(o: &mut Vec<(String, Json)>, key: &str, value: Json)
    ensures
        entries(final(o)@) == defaulted(entries(old(o)@), key@, value.model()),
{
    let missing = match lookup(o, key) {
        Some(Json::Null) => true,
        Some(_) => false,
        None => true,
    };
    if missing {
        put(o, key, value);
    }
}

fn is_array(o: &Vec<(String, Json)>, key: &str) -> (r: bool)
    ensures
        r == (field(entries(o@), key@) is Array),
{
    match lookup(o, key) {
        Some(Json::Array(_)) => true,
        _ => false,
    }
}

/// Takes a draft up to the check of its structure: the name, the root and the outer shape are
/// vetted, and what the document lacks is filled in. Its own name follows the vetted one, so
/// that the two never diverge.
pub fn draft_flow_tool(roots: &Vec<String>, root_arg: Option<&str>, name: Option<&str>, flow: Option<Json>) -> (r: Result<Draft, DraftResult>)
    ensures
        match draft_refusal(texts(roots@), opt_str(root_arg), opt_str(name), flow_view(flow)) {
            Some(e) => r matches Err(d) && d.text@ == e && d.open_path is None,
            None => r matches Ok(d) && entries(d.doc@) == completed(flow_view(flow)->0->Object_0, name->0@) && d.root@ == match root_arg {
                Some(w) => w@,
                None => roots@[0]@,
            },
        },
{
    let wanted = match name {
        None => return Err(refused("Flow name must be a non-empty string.".to_owned())),
        Some(n) => n,
    };
    if let Some(bad) = bad_name(wanted) {
        return Err(refused(bad));
    }
    let root = match pick_root(roots, root_arg) {
        PickedRoot::Error(e) => return Err(refused(e)),
        PickedRoot::Root(p) => p.to_owned(),
    };
    let ghost given = flow_view(flow);
    let mut doc: Vec<(String, Json)> = match flow {
        Some(Json::Object(o)) => {
            assert(given == Some(JsonView::Object(entries(o@)))) by {
                assert(given->0->Object_0 =~= entries(o@));
            }
            o
        },
        _ => return Err(refused("draft_flow needs a flow object: {version, name, nodes, edges}.".to_owned())),
    };
    let empty = Json::Array(Vec::new());
    assert(empty.model()->Array_0 =~= Seq::<JsonView>::empty());
    fill(&mut doc, "nodes", empty);
    let none = Json::Array(Vec::new());
    assert(none.model()->Array_0 =~= Seq::<JsonView>::empty());
    fill(&mut doc, "edges", none);
    if !is_array(&doc, "nodes") || !is_array(&doc, "edges") {
        return Err(refused("flow.nodes and flow.edges must be arrays.".to_owned()));
    }
    let one = "1".to_owned();
    proof {
        reveal_strlit("1");
        assert(one@ =~= seq!['1']);
    }
    fill(&mut doc, "version", Json::Number(one));
    put(&mut doc, "name", Json::Text(wanted.to_owned()));
    Ok(Draft { root, doc })
}

/// The refusal of a draft with structural errors; nothing is written.
pub fn structural_refusal(errors: &Vec<String>) -> (r: DraftResult)
    ensures
        r.text@ == "Refused — structural errors (nothing written):\n- "@ + joined(texts(errors@), "\n- "@),
        r.open_path is None,
{
    let list = join(errors, "\n- ");
    refused(join2("Refused — structural errors (nothing written):\n- ", &list))
}

/// Where a draft is written.
pub fn draft_target(root: &str, name: &str) -> (r: Result<String, DraftResult>)
    ensures
        match flow_file(root@, name@) {
            Some(f) => r matches Ok(p) && p@ == f,
            None => r matches Err(d) && d.open_path is None && d.text@ == "Flow name \""@ + name@ + "\" does not resolve inside .tome/flows."@,
        },
{
    match flow_path(root, name) {
        Some(f) => Ok(f),
        None => Err(refused(join3("Flow name \"", name, "\" does not resolve inside .tome/flows."))),
    }
}

/// What went wrong on the way to the disk.
pub enum DraftFailure {
    /// The file would really lie outside the workspace.
    Escapes,
    /// The folder of the flows could not be made.
    NoFolder,
    /// The file could not be written.
    NotWritten,
}

/// The answer to a draft that could not be written.
pub fn draft_failed(name: &str, why: DraftFailure) -> (r: DraftResult)
    ensures
        r.open_path is None,
        r.text@ == match why {
            DraftFailure::Escapes => "Flow name \""@ + name@ + "\" escapes the workspace folder."@,
            DraftFailure::NoFolder => "could not create .tome/flows for \""@ + name@ + "\"."@,
            DraftFailure::NotWritten => "could not write \""@ + name@ + "\"."@,
        },
{
    refused(
        match why {
            DraftFailure::Escapes => join3("Flow name \"", name, "\" escapes the workspace folder."),
            DraftFailure::NoFolder => join3("could not create .tome/flows for \"", name, "\"."),
            DraftFailure::NotWritten => join3("could not write \"", name, "\"."),
        },
    )
}

/// What a written draft is answered with.
pub open spec fn draft_text(created: bool, name: Text, nodes: nat, edges: nat, warnings: Seq<Text>) -> Text {
    let said = (if created { "Created"@ } else { "Updated"@ }) + " \""@ + name + "\" ("@ + decimal(nodes) + " nodes, "@ + decimal(edges) + " edges)."@;
    if warnings.len() == 0 {
        said
    } else {
        said + "\nContract warnings to raise with the user:\n- "@ + joined(warnings, "\n- "@)
    }
}

/// The answer to a draft that was written; only a new file is to be opened.
pub fn draft_written(created: bool, name: &str, path: &str, nodes: usize, edges: usize, warnings: &Vec<String>) -> (r: DraftResult)
    ensures
        r.text@ == draft_text(created, name@, nodes as nat, edges as nat, texts(warnings@)),
        opt_text(r.open_path) == if created { Some(path@) } else { None },
{
    let mut text = if created { "Created".to_owned() } else { "Updated".to_owned() };
    text.append(" \"");
    text.append(name);
    text.append("\" (");
    let n = decimal_u64(nodes as u64);
    text.append(&n);
    text.append(" nodes, ");
    let e = decimal_u64(edges as u64);
    text.append(&e);
    text.append(" edges).");
    if warnings.len() > 0 {
        text.append("\nContract warnings to raise with the user:\n- ");
        let list = join(warnings, "\n- ");
        text.append(&list);
    }
    DraftResult { text, open_path: if created { Some(path.to_owned()) } else { None } }
}

/// A name is taken exactly where it is not blank, holds no separator of either kind and is not the
/// step up.
pub proof fn law_good_names_are_taken(name: Text)
    ensures
        name_refusal(name) is None <==> trimmed(name).len() > 0 && !name.contains('/') && !name.contains('\\') && name != ".."@,
{
}

/// The flows of a workspace lie in a folder of their own under its root.
pub proof fn law_flows_lie_under_their_root(root: Text)
    ensures
        path_parts(flows_dir_text(root)) == path_parts(root) + seq![Part::Name(".tome"@), Part::Name("flows"@)],
{
    reveal_strlit(".tome");
    reveal_strlit("flows");
    assert(plain_name(".tome"@)) by {
        assert(".tome"@.len() == 5);
    }
    assert(plain_name("flows"@)) by {
        assert("flows"@.len() == 5);
    }
    law_joined_names_are_inside(root, ".tome"@);
    law_joined_names_are_inside(path_join(root, ".tome"@), "flows"@);
    assert(path_parts(flows_dir_text(root)) =~= path_parts(root) + seq![Part::Name(".tome"@), Part::Name("flows"@)]);
}

/// A flow of a good name is looked for in every root, in order, under that name.
pub proof fn law_every_root_is_searched(roots: Seq<Text>, name: Text)
    requires
        name_refusal(name) is None,
    ensures
        files_for(roots, name).len() == roots.len(),
        forall|i: int|
            0 <= i < roots.len() ==> (#[trigger] files_for(roots, name)[i]).0 == roots[i] && files_for(roots, name)[i].1 == flows_dir_text(roots[i])
                + "/"@ + name + ".flow.json"@,
    decreases roots.len(),
{
    if roots.len() > 0 {
        let front = roots.drop_last();
        law_every_root_is_searched(front, name);
        law_good_names_stay_in_place(roots.last(), name);
        let all = files_for(roots, name);
        assert forall|i: int| 0 <= i < roots.len() implies (#[trigger] all[i]).0 == roots[i] && all[i].1 == flows_dir_text(roots[i]) + "/"@
            + name + ".flow.json"@ by {
            if i < front.len() {
                assert(all[i] == files_for(front, name)[i]);
                assert(front[i] == roots[i]);
            }
        }
    }
}

/// A root that is wanted must be open and is then the only one that is searched; without one all are,
/// as long as one is open.
pub proof fn law_only_open_roots_are_searched(roots: Seq<Text>, w: Text)
    ensures
        roots.contains(w) ==> root_refusal(roots, Some(w)) is None && search_roots(roots, Some(w)) == seq![w],
        !roots.contains(w) ==> root_refusal(roots, Some(w)) is Some,
        roots.len() > 0 ==> root_refusal(roots, None) is None,
        roots.len() == 0 ==> root_refusal(roots, None) is Some && root_refusal(roots, Some(w)) is Some,
        search_roots(roots, None) == roots,
{
}

/// Every flow file is listed under its name without the ending, in order, and with its root where
/// there are many.
pub proof fn law_flow_files_are_listed_by_name(root: Text, stems: Seq<Text>)
    ensures
        listed(root, false, stems.map_values(|s: Text| s + ".flow.json"@)) == stems,
        listed(root, true, stems.map_values(|s: Text| s + ".flow.json"@)) == stems.map_values(|s: Text| s + " (in "@ + root + ")"@),
    decreases stems.len(),
{
    let files = stems.map_values(|s: Text| s + ".flow.json"@);
    let long = stems.map_values(|s: Text| s + " (in "@ + root + ")"@);
    if stems.len() > 0 {
        let front = stems.drop_last();
        law_flow_files_are_listed_by_name(root, front);
        let f = files.last();
        let stem = stems.last();
        assert(files.drop_last() =~= front.map_values(|s: Text| s + ".flow.json"@));
        assert(long.drop_last() =~= front.map_values(|s: Text| s + " (in "@ + root + ")"@));
        law_beginnings_and_ends(stem, ".flow.json"@);
        assert(f == stem + ".flow.json"@);
        assert(f.take(f.len() - ".flow.json"@.len()) =~= stem);
        assert(listed(root, false, files) =~= stems);
        assert(listed(root, true, files) =~= long);
    } else {
        assert(listed(root, false, files) =~= stems);
        assert(listed(root, true, files) =~= long);
    }
}

/// A file that is no flow is not listed.
pub proof fn law_other_files_are_not_listed(root: Text, many: bool, files: Seq<Text>, f: Text)
    requires
        !ends(f, ".flow.json"@),
    ensures
        listed(root, many, files.push(f)) == listed(root, many, files),
{
    assert(files.push(f).drop_last() =~= files);
}

/// What a draft leaves out is filled in, empty lists and the first version, and what it brings is
/// kept.
pub proof fn law_missing_parts_are_filled_in(o: Seq<(Text, JsonView)>, name: Text)
    ensures
        field(o, "version"@) is Null ==> field(completed(o, name), "version"@) == JsonView::Number(seq!['1']),
        !(field(o, "version"@) is Null) ==> field(completed(o, name), "version"@) == field(o, "version"@),
        field(o, "nodes"@) is Null ==> field(completed(o, name), "nodes"@) == JsonView::Array(Seq::empty()),
        !(field(o, "nodes"@) is Null) ==> field(completed(o, name), "nodes"@) == field(o, "nodes"@),
        field(o, "edges"@) is Null ==> field(completed(o, name), "edges"@) == JsonView::Array(Seq::empty()),
        !(field(o, "edges"@) is Null) ==> field(completed(o, name), "edges"@) == field(o, "edges"@),
        field(completed(o, name), "name"@) == JsonView::Text(name),
{
    lemma_field_words();
    let none = JsonView::Array(Seq::empty());
    let a = defaulted(o, "nodes"@, none);
    let b = defaulted(a, "edges"@, none);
    let one = JsonView::Number(seq!['1']);
    let c = defaulted(b, "version"@, one);
    law_fields_read_back(c, "name"@, JsonView::Text(name), "nodes"@);
    law_fields_read_back(c, "name"@, JsonView::Text(name), "edges"@);
    law_fields_read_back(c, "name"@, JsonView::Text(name), "version"@);
    law_fields_read_back(b, "version"@, one, "nodes"@);
    law_fields_read_back(b, "version"@, one, "edges"@);
    law_fields_read_back(a, "edges"@, none, "nodes"@);
    law_fields_read_back(a, "edges"@, none, "version"@);
    law_fields_read_back(o, "nodes"@, none, "edges"@);
    law_fields_read_back(o, "nodes"@, none, "version"@);
}

/// A draft is taken exactly where its name is good, its root is open, and it is an object whose nodes
/// and edges are lists or left out.
pub proof fn law_good_drafts_are_taken(roots: Seq<Text>, wanted: Option<Text>, name: Text, o: Seq<(Text, JsonView)>)
    ensures
        draft_refusal(roots, wanted, Some(name), Some(JsonView::Object(o))) is None <==> name_refusal(name) is None && root_refusal(roots, wanted) is None
            && (field(o, "nodes"@) is Array || field(o, "nodes"@) is Null) && (field(o, "edges"@) is Array || field(o, "edges"@) is Null),
        draft_refusal(roots, wanted, None, Some(JsonView::Object(o))) is Some,
        draft_refusal(roots, wanted, Some(name), None) is Some,
{
    law_missing_parts_are_filled_in(o, name);
    lemma_field_words();
    let none = JsonView::Array(Seq::empty());
    let a = defaulted(o, "nodes"@, none);
    law_fields_read_back(a, "edges"@, none, "nodes"@);
    law_fields_read_back(o, "nodes"@, none, "edges"@);
}

/// What is said of a draft tells whether it is new, which one it is, how much it holds, and every
/// warning behind that.
pub proof fn law_drafts_are_told(created: bool, name: Text, nodes: nat, edges: nat, warnings: Seq<Text>)
    ensures
        begins(draft_text(created, name, nodes, edges, warnings), if created { "Created \""@ + name } else { "Updated \""@ + name }),
        warnings.len() > 0 ==> ends(draft_text(created, name, nodes, edges, warnings), joined(warnings, "\n- "@)),
        warnings.len() == 0 ==> draft_text(created, name, nodes, edges, warnings) == (if created { "Created"@ } else { "Updated"@ }) + " \""@ + name
            + "\" ("@ + decimal(nodes) + " nodes, "@ + decimal(edges) + " edges)."@,
{
    reveal_strlit("Created");
    reveal_strlit("Updated");
    reveal_strlit("Created \"");
    reveal_strlit("Updated \"");
    reveal_strlit(" \"");
    let said = draft_text(created, name, nodes, edges, Seq::empty());
    let front = if created { "Created \""@ + name } else { "Updated \""@ + name };
    let rest = "\" ("@ + decimal(nodes) + " nodes, "@ + decimal(edges) + " edges)."@;
    assert(said =~= front + rest);
    law_beginnings_and_ends(front, rest);
    let told = draft_text(created, name, nodes, edges, warnings);
    if warnings.len() > 0 {
        let more = "\nContract warnings to raise with the user:\n- "@;
        law_beginnings_and_ends(said + more, joined(warnings, "\n- "@));
        assert(told == said + more + joined(warnings, "\n- "@));
        assert(told.take(front.len() as int) =~= front);
    }
}

}
