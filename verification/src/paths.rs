//! Slash-separated paths, read component by component and never resolved against a disk.

use vstd::prelude::*;
use vstd::string::*;

use crate::flow::graph::Text;
use crate::text::{
    chars_of, join, join2, join3, joined, law_joined_pieces_split_back, law_pieces_join_back, lemma_joined_front, same, split, split_char,
    starts_with, texts,
};

verus! {

/// One component of a path.
pub enum Component {
    RootDir,
    CurDir,
    ParentDir,
    Normal(String),
}

/// A component by the view of its name.
pub enum Part {
    Root,
    Cur,
    Parent,
    Name(Text),
}

impl View for Component {
    type V = Part;

    open spec fn view(&self) -> Part {
        match self {
            Component::RootDir => Part::Root,
            Component::CurDir => Part::Cur,
            Component::ParentDir => Part::Parent,
            Component::Normal(s) => Part::Name(s@),
        }
    }
}

pub open spec fn parts(v: Seq<Component>) -> Seq<Part> {
    v.map_values(|c: Component| c@)
}

/// The path starts at the root.
pub open spec fn absolute(p: Text) -> bool {
    p.len() > 0 && p[0] == '/'
}

/// The components the pieces between the slashes stand for: empty pieces stand for none, nor
/// does a `.` other than at the start of a relative path.
pub open spec fn parts_of(pieces: Seq<Text>, abs: bool) -> Seq<Part>
    decreases pieces.len(),
{
    if pieces.len() == 0 {
        if abs {
            seq![Part::Root]
        } else {
            Seq::empty()
        }
    } else {
        let before = parts_of(pieces.drop_last(), abs);
        let piece = pieces.last();
        if piece.len() == 0 {
            before
        } else if piece == seq!['.'] {
            if pieces.len() == 1 && !abs {
                before.push(Part::Cur)
            } else {
                before
            }
        } else if piece == seq!['.', '.'] {
            before.push(Part::Parent)
        } else {
            before.push(Part::Name(piece))
        }
    }
}

/// The components of a path.
pub open spec fn path_parts(p: Text) -> Seq<Part> {
    parts_of(split(p, '/'), absolute(p))
}

pub fn is_absolute(p: &str) -> (r: bool)
    ensures
        r == absolute(p@),
{
    let r = starts_with(p, "/");
    proof {
        reveal_strlit("/");
        assert("/"@ =~= seq!['/']);
        if absolute(p@) {
            assert(p@.take(1) =~= seq!['/']);
        }
        if r {
            assert(p@.take(1)[0] == '/');
        }
    }
    r
}

/// The components of a path.
pub fn components(p: &str) -> (r: Vec<Component>)
    ensures
        parts(r@) == path_parts(p@),
{
    let abs = is_absolute(p);
    let pieces = split_char(p, '/');
    let ghost all = split(p@, '/');
    let mut out: Vec<Component> = Vec::new();
    if abs {
        out.push(Component::RootDir);
    }
    let mut i: usize = 0;
    proof {
        reveal_strlit(".");
        reveal_strlit("..");
        assert("."@ =~= seq!['.']);
        assert(".."@ =~= seq!['.', '.']);
        assert(all.take(0) =~= Seq::<Text>::empty());
        assert(parts(out@) =~= parts_of(all.take(0), abs));
    }
    while i < pieces.len()
        invariant
            i <= pieces@.len(),
            all == texts(pieces@),
            abs == absolute(p@),
            "."@ == seq!['.'],
            ".."@ == seq!['.', '.'],
            parts(out@) == parts_of(all.take(i as int), abs),
        decreases pieces@.len() - i,
    {
        let ghost before = parts(out@);
        proof {
            assert(all.take(i + 1).drop_last() =~= all.take(i as int));
            assert(all.take(i + 1).last() == pieces@[i as int]@);
        }
        let piece = &pieces[i];
        if !piece.as_str().is_empty() {
            if same(piece, ".") {
                if i == 0 && !abs {
                    out.push(Component::CurDir);
                    assert(parts(out@) =~= before.push(Part::Cur));
                }
            } else if same(piece, "..") {
                out.push(Component::ParentDir);
                assert(parts(out@) =~= before.push(Part::Parent));
            } else {
                out.push(Component::Normal(piece.clone()));
                assert(parts(out@) =~= before.push(Part::Name(piece@)));
            }
        }
        i += 1;
    }
    assert(all.take(all.len() as int) =~= all);
    out
}

fn same_component(a: &Component, b: &Component) -> (r: bool)
    ensures
        r == (a@ == b@),
{
    match (a, b) {
        (Component::RootDir, Component::RootDir) => true,
        (Component::CurDir, Component::CurDir) => true,
        (Component::ParentDir, Component::ParentDir) => true,
        (Component::Normal(x), Component::Normal(y)) => same(x, y),
        _ => false,
    }
}

/// The components of `base` are the first components of `p`.
pub open spec fn under(p: Text, base: Text) -> bool {
    path_parts(base).len() <= path_parts(p).len() && path_parts(p).take(path_parts(base).len() as int) == path_parts(base)
}

/// `p` is `base` or lies below it, component by component.
pub fn path_starts_with(p: &str, base: &str) -> (r: bool)
    ensures
        r == under(p@, base@),
{
    let a = components(p);
    let b = components(base);
    if b.len() > a.len() {
        return false;
    }
    let mut i: usize = 0;
    while i < b.len()
        invariant
            i <= b@.len() <= a@.len(),
            parts(a@) == path_parts(p@),
            parts(b@) == path_parts(base@),
            forall|j: int| 0 <= j < i ==> #[trigger] parts(a@)[j] == parts(b@)[j],
        decreases b@.len() - i,
    {
        if !same_component(&a[i], &b[i]) {
            assert(parts(a@)[i as int] != parts(b@)[i as int]);
            assert(path_parts(p@).take(path_parts(base@).len() as int)[i as int] != path_parts(base@)[i as int]);
            return false;
        }
        assert(parts(a@)[i as int] == parts(b@)[i as int]);
        i += 1;
    }
    assert(path_parts(p@).take(path_parts(base@).len() as int) =~= path_parts(base@));
    true
}

/// `full` lies strictly inside `root`, by its spelling alone; nothing lies inside an empty root.
pub open spec fn inside(root: Text, full: Text) -> bool {
    root.len() > 0 && under(full, root) && path_parts(root).len() < path_parts(full).len()
}

/// Whether `full` is lexically and strictly inside `root`; the root itself does not count.
pub fn lexically_inside(root: &str, full: &str) -> (r: bool)
    ensures
        r == inside(root@, full@),
{
    if root.is_empty() {
        return false;
    }
    let a = components(root);
    let b = components(full);
    assert(parts(a@).len() == a@.len() && parts(b@).len() == b@.len());
    a.len() < b.len() && path_starts_with(full, root)
}

// ---- joining ----

/// `base` with `name` appended as a further part; an absolute `name` replaces it.
pub open spec fn path_join(base: Text, name: Text) -> Text {
    if absolute(name) || base.len() == 0 {
        name
    } else if base.last() == '/' {
        base + name
    } else {
        base + seq!['/'] + name
    }
}

/// A name that is one component of a path.
pub open spec fn plain_name(name: Text) -> bool {
    name.len() > 0 && !name.contains('/') && name != seq!['.'] && name != seq!['.', '.']
}

pub proof fn lemma_split_last(a: Text, b: Text, c: char)
    requires
        !b.contains(c),
    ensures
        split(a.push(c) + b, c) == split(a, c).push(b),
    decreases b.len(),
{
    let s = a.push(c) + b;
    if b.len() == 0 {
        assert(s =~= a.push(c));
        assert(s.drop_last() =~= a);
        assert(b =~= Seq::<char>::empty());
    } else {
        let shorter = b.drop_last();
        assert(!shorter.contains(c)) by {
            if shorter.contains(c) {
                let i = choose|i: int| 0 <= i < shorter.len() && shorter[i] == c;
                assert(b[i] == c);
            }
        }
        lemma_split_last(a, shorter, c);
        assert(s.drop_last() =~= a.push(c) + shorter);
        assert(s.last() == b.last());
        assert(b[b.len() - 1] != c);
        let before = split(a, c).push(shorter);
        assert(before.drop_last() =~= split(a, c));
        assert(before.last().push(b.last()) =~= b);
    }
}

pub proof fn lemma_split_none(s: Text, c: char)
    requires
        !s.contains(c),
    ensures
        split(s, c) == seq![s],
    decreases s.len(),
{
    if s.len() > 0 {
        let head = s.drop_last();
        assert(!head.contains(c)) by {
            if head.contains(c) {
                let i = choose|i: int| 0 <= i < head.len() && head[i] == c;
                assert(s[i] == c);
            }
        }
        lemma_split_none(head, c);
        assert(s[s.len() - 1] != c);
        assert(seq![head].drop_last().push(seq![head].last().push(s.last())) =~= seq![s]) by {
            assert(head.push(s.last()) =~= s);
        }
    }
}

/// A plain name that is appended to a path is one more component of it; it lies inside the path.
pub proof fn law_joined_names_are_inside(base: Text, name: Text)
    requires
        plain_name(name),
    ensures
        path_parts(path_join(base, name)) == path_parts(base).push(Part::Name(name)),
        base.len() > 0 ==> inside(base, path_join(base, name)),
{
    assert(name[0] != '/') by {
        assert(name.contains(name[0]));
    }
    let file = path_join(base, name);
    if base.len() == 0 {
        lemma_split_none(name, '/');
        lemma_split_none(base, '/');
        assert(seq![name].drop_last() =~= Seq::<Text>::empty());
        assert(seq![base].drop_last() =~= Seq::<Text>::empty());
        assert(parts_of(Seq::<Text>::empty(), false) =~= Seq::<Part>::empty());
        assert(path_parts(base) =~= Seq::<Part>::empty());
    } else {
        let stem = if base.last() == '/' { base.drop_last() } else { base };
        if base.last() == '/' {
            assert(base =~= stem.push('/') + Seq::<char>::empty());
            assert(!Seq::<char>::empty().contains('/'));
            lemma_split_last(stem, Seq::empty(), '/');
            assert(split(stem, '/').push(Seq::empty()).drop_last() =~= split(stem, '/'));
        }
        assert(file =~= stem.push('/') + name);
        lemma_split_last(stem, name, '/');
        assert(split(stem, '/').push(name).drop_last() =~= split(stem, '/'));
        assert(file[0] == base[0]);
        assert(path_parts(base) == parts_of(split(stem, '/'), absolute(base)));
        assert(path_parts(file) == parts_of(split(stem, '/'), absolute(base)).push(Part::Name(name)));
    }
    assert(path_parts(file).take(path_parts(base).len() as int) =~= path_parts(base));
}

/// Appends `name` to `base`.
pub fn join_path(base: &str, name: &str) -> (r: String)
    ensures
        r@ == path_join(base@, name@),
{
    if is_absolute(name) || base.is_empty() {
        return name.to_owned();
    }
    let chars = chars_of(base);
    if chars[chars.len() - 1] == '/' {
        join2(base, name)
    } else {
        proof {
            reveal_strlit("/");
            assert("/"@ =~= seq!['/']);
        }
        join3(base, "/", name)
    }
}

// ---- resolving ----

/// The names left when every `..` takes back the name before it.
pub open spec fn resolved_names(v: Seq<Part>) -> Seq<Text>
    decreases v.len(),
{
    if v.len() == 0 {
        Seq::empty()
    } else {
        let before = resolved_names(v.drop_last());
        match v.last() {
            Part::Name(s) => before.push(s),
            Part::Parent => if before.len() > 0 { before.drop_last() } else { before },
            _ => before,
        }
    }
}

/// The path of these names, from the root or relative.
pub open spec fn render(abs: bool, names: Seq<Text>) -> Text {
    (if abs { seq!['/'] } else { Seq::<char>::empty() }) + joined(names, seq!['/'])
}

/// The path `p` means seen from the directory `cwd`, with `.` and `..` worked out by spelling.
pub open spec fn resolve(p: Text, cwd: Text) -> Text {
    let full = path_join(cwd, p);
    render(absolute(full), resolved_names(path_parts(full)))
}

/// Resolves `p` against `cwd` without touching the disk.
pub fn lexical_resolve(p: &str, cwd: &str) -> (r: String)
    ensures
        r@ == resolve(p@, cwd@),
{
    let full = join_path(cwd, p);
    let abs = is_absolute(&full);
    let comps = components(&full);
    let ghost all = path_parts(full@);
    let mut stack: Vec<String> = Vec::new();
    let mut i: usize = 0;
    assert(all.take(0) =~= Seq::<Part>::empty());
    assert(texts(stack@) =~= Seq::<Text>::empty());
    while i < comps.len()
        invariant
            i <= comps@.len(),
            all == parts(comps@),
            texts(stack@) == resolved_names(all.take(i as int)),
        decreases comps@.len() - i,
    {
        let ghost before = texts(stack@);
        proof {
            assert(all.take(i + 1).drop_last() =~= all.take(i as int));
            assert(all.take(i + 1).last() == comps@[i as int]@);
        }
        match &comps[i] {
            Component::Normal(s) => {
                stack.push(s.clone());
                assert(texts(stack@) =~= before.push(s@));
            },
            Component::ParentDir => {
                let _ = stack.pop();
                proof {
                    if before.len() > 0 {
                        assert(texts(stack@) =~= before.drop_last());
                    }
                }
            },
            _ => {},
        }
        i += 1;
    }
    assert(all.take(all.len() as int) =~= all);
    let rest = join(&stack, "/");
    proof {
        reveal_strlit("/");
        assert("/"@ =~= seq!['/']);
    }
    if abs {
        join2("/", &rest)
    } else {
        assert(Seq::<char>::empty() + rest@ =~= rest@);
        rest
    }
}

/// A flow may be opened once the folders were reported, when it resolves to a path in one.
pub open spec fn may_open(folders_synced: bool, folders: Seq<Text>, p: Text, cwd: Text) -> bool {
    folders_synced && p.len() > 0 && exists|i: int| 0 <= i < folders.len() && under(resolve(p, cwd), #[trigger] folders[i])
}

/// Whether the flow at `p` lies in an open workspace folder.
pub fn can_open_flow(folders_synced: bool, open_folders: &Vec<String>, p: &str, cwd: &str) -> (r: bool)
    ensures
        r == may_open(folders_synced, texts(open_folders@), p@, cwd@),
{
    if !folders_synced || p.is_empty() {
        return false;
    }
    let abs = lexical_resolve(p, cwd);
    let mut i: usize = 0;
    while i < open_folders.len()
        invariant
            i <= open_folders@.len(),
            abs@ == resolve(p@, cwd@),
            folders_synced,
            p@.len() > 0,
            forall|j: int| 0 <= j < i ==> !under(abs@, #[trigger] texts(open_folders@)[j]),
        decreases open_folders@.len() - i,
    {
        if path_starts_with(&abs, &open_folders[i]) {
            assert(under(abs@, texts(open_folders@)[i as int]));
            return true;
        }
        i += 1;
    }
    false
}

/// A part that is a plain name.
spec fn named(v: Seq<Part>) -> bool {
    forall|i: int| 0 <= i < v.len() && (#[trigger] v[i]) is Name ==> plain_name(v[i]->Name_0)
}

proof fn lemma_parts_named(pieces: Seq<Text>, abs: bool)
    requires
        forall|k: int| 0 <= k < pieces.len() ==> !(#[trigger] pieces[k]).contains('/'),
    ensures
        named(parts_of(pieces, abs)),
    decreases pieces.len(),
{
    if pieces.len() > 0 {
        let front = pieces.drop_last();
        assert forall|k: int| 0 <= k < front.len() implies !(#[trigger] front[k]).contains('/') by {
            assert(front[k] == pieces[k]);
        }
        lemma_parts_named(front, abs);
        assert(!pieces[pieces.len() - 1].contains('/'));
    }
}

proof fn lemma_resolved_plain(v: Seq<Part>)
    requires
        named(v),
    ensures
        forall|k: int| 0 <= k < resolved_names(v).len() ==> plain_name(#[trigger] resolved_names(v)[k]),
    decreases v.len(),
{
    if v.len() > 0 {
        let front = v.drop_last();
        assert(named(front)) by {
            assert forall|i: int| 0 <= i < front.len() && (#[trigger] front[i]) is Name implies plain_name(front[i]->Name_0) by {
                assert(front[i] == v[i]);
            }
        }
        lemma_resolved_plain(front);
        let last = v[v.len() - 1];
        if last is Name {
            assert(plain_name(last->Name_0));
        }
        let before = resolved_names(front);
        let all = resolved_names(v);
        assert forall|k: int| 0 <= k < all.len() implies plain_name(#[trigger] all[k]) by {
            if k < before.len() {
                assert(all[k] == before[k]);
            }
        }
    }
}

/// The names as the parts of a path.
pub open spec fn name_parts(names: Seq<Text>) -> Seq<Part> {
    names.map_values(|n: Text| Part::Name(n))
}

proof fn lemma_parts_of_names(names: Seq<Text>, abs: bool)
    requires
        forall|k: int| 0 <= k < names.len() ==> plain_name(#[trigger] names[k]),
    ensures
        parts_of(names, abs) == parts_of(Seq::empty(), abs) + name_parts(names),
        parts_of(seq![Seq::<char>::empty()] + names, abs) == parts_of(Seq::empty(), abs) + name_parts(names),
    decreases names.len(),
{
    let lead = seq![Seq::<char>::empty()];
    if names.len() == 0 {
        assert(names =~= Seq::empty());
        assert(lead + names =~= lead);
        assert(lead.drop_last() =~= Seq::empty());
        assert(name_parts(names) =~= Seq::empty());
        assert(parts_of(Seq::empty(), abs) + name_parts(names) =~= parts_of(Seq::empty(), abs));
        assert(parts_of(lead, abs) == parts_of(lead.drop_last(), abs));
    } else {
        let front = names.drop_last();
        let last = names.last();
        assert(plain_name(names[names.len() - 1]));
        assert forall|k: int| 0 <= k < front.len() implies plain_name(#[trigger] front[k]) by {
            assert(front[k] == names[k]);
        }
        lemma_parts_of_names(front, abs);
        assert(name_parts(names) =~= name_parts(front).push(Part::Name(last)));
        assert((lead + names).drop_last() =~= lead + front);
        assert((lead + names).last() == last);
        assert(parts_of(names, abs) =~= parts_of(Seq::empty(), abs) + name_parts(names));
        assert(parts_of(lead + names, abs) =~= parts_of(Seq::empty(), abs) + name_parts(names));
    }
}

proof fn lemma_rendered(abs: bool, names: Seq<Text>)
    requires
        forall|k: int| 0 <= k < names.len() ==> plain_name(#[trigger] names[k]),
    ensures
        path_parts(render(abs, names)) == parts_of(Seq::empty(), abs) + name_parts(names),
        absolute(render(abs, names)) == abs,
{
    let p = render(abs, names);
    let sep = seq!['/'];
    let body = joined(names, sep);
    lemma_parts_of_names(names, abs);
    assert forall|k: int| 0 <= k < names.len() implies !(#[trigger] names[k]).contains('/') by {
        assert(plain_name(names[k]));
    }
    if names.len() > 0 {
        law_joined_pieces_split_back(names, '/');
        assert(body.len() > 0 && body[0] == names[0][0]) by {
            assert(plain_name(names[0]));
            if names.len() > 1 {
                lemma_joined_front(names, sep);
            }
        }
        assert(names[0].contains(names[0][0]));
    }
    if abs {
        assert(p == sep + body);
        assert(p[0] == '/');
        let lead = seq![Seq::<char>::empty()];
        if names.len() == 0 {
            assert(p =~= Seq::<char>::empty().push('/') + Seq::<char>::empty());
            lemma_split_last(Seq::empty(), Seq::empty(), '/');
            assert(split(Seq::empty(), '/') =~= lead);
            assert(split(p, '/') =~= lead.push(Seq::empty()));
            assert(lead.push(Seq::empty()).drop_last() =~= lead);
            assert(lead + names =~= lead);
        } else {
            let v = lead + names;
            assert forall|k: int| 0 <= k < v.len() implies !(#[trigger] v[k]).contains('/') by {
                if k > 0 {
                    assert(v[k] == names[k - 1]);
                }
            }
            law_joined_pieces_split_back(v, '/');
            lemma_joined_front(v, sep);
            assert(v.drop_first() =~= names);
            assert(joined(v, sep) =~= p);
        }
    } else {
        assert(p =~= body);
        if names.len() == 0 {
            assert(p =~= Seq::<char>::empty());
            let lead = seq![Seq::<char>::empty()];
            assert(split(p, '/') =~= lead);
            assert(lead + names =~= lead);
        }
    }
}

/// A resolved path goes nowhere on the way: it is made of names alone, behind the root where the
/// path had one, with no step up and no step in place left in it.
pub proof fn law_resolved_paths_hold_no_steps(p: Text, cwd: Text, i: int)
    requires
        0 <= i < path_parts(resolve(p, cwd)).len(),
    ensures
        !(path_parts(resolve(p, cwd))[i] is Parent),
        !(path_parts(resolve(p, cwd))[i] is Cur),
        path_parts(resolve(p, cwd))[i] is Root ==> i == 0,
        absolute(resolve(p, cwd)) == absolute(path_join(cwd, p)),
{
    lemma_resolve(p, cwd);
}

proof fn lemma_resolve(p: Text, cwd: Text)
    ensures
        path_parts(resolve(p, cwd)) == parts_of(Seq::empty(), absolute(path_join(cwd, p))) + name_parts(
            resolved_names(path_parts(path_join(cwd, p))),
        ),
        absolute(resolve(p, cwd)) == absolute(path_join(cwd, p)),
{
    let full = path_join(cwd, p);
    law_pieces_join_back(full, '/');
    lemma_parts_named(split(full, '/'), absolute(full));
    lemma_resolved_plain(path_parts(full));
    lemma_rendered(absolute(full), resolved_names(path_parts(full)));
}

/// A step up undoes the step down before it, and a step in place undoes nothing.
pub proof fn law_a_step_up_undoes_a_step_down(v: Seq<Part>, name: Text)
    ensures
        resolved_names(v.push(Part::Name(name)).push(Part::Parent)) == resolved_names(v),
        resolved_names(v.push(Part::Cur)) == resolved_names(v),
        resolved_names(v.push(Part::Name(name))) == resolved_names(v).push(name),
        resolved_names(seq![Part::Parent]) == Seq::<Text>::empty(),
{
    let down = v.push(Part::Name(name));
    assert(down.push(Part::Parent).drop_last() =~= down);
    assert(down.drop_last() =~= v);
    assert(v.push(Part::Cur).drop_last() =~= v);
    assert(resolved_names(down) == resolved_names(v).push(name));
    assert(resolved_names(v).push(name).drop_last() =~= resolved_names(v));
    assert(seq![Part::Parent].drop_last() =~= Seq::<Part>::empty());
    assert(resolved_names(Seq::<Part>::empty()) =~= Seq::<Text>::empty());
}

proof fn lemma_straight(v: Seq<Part>)
    requires
        forall|i: int| 0 <= i < v.len() ==> (#[trigger] v[i]) is Name,
    ensures
        name_parts(resolved_names(v)) == v,
    decreases v.len(),
{
    if v.len() > 0 {
        let front = v.drop_last();
        assert forall|i: int| 0 <= i < front.len() implies (#[trigger] front[i]) is Name by {
            assert(front[i] == v[i]);
        }
        lemma_straight(front);
        assert(v[v.len() - 1] is Name);
        assert(name_parts(resolved_names(v)) =~= name_parts(resolved_names(front)).push(v.last()));
        assert(front.push(v.last()) =~= v);
    } else {
        assert(name_parts(resolved_names(v)) =~= v);
    }
}

proof fn lemma_rooted(v: Seq<Part>)
    requires
        v.len() > 0,
    ensures
        v[0] is Root ==> resolved_names(v) == resolved_names(v.drop_first()),
    decreases v.len(),
{
    if v[0] is Root {
        if v.len() == 1 {
            assert(v.drop_first() =~= Seq::<Part>::empty());
            assert(v.drop_last() =~= Seq::<Part>::empty());
        } else {
            lemma_rooted(v.drop_last());
            assert(v.drop_last().drop_first() =~= v.drop_first().drop_last());
        }
    }
}

/// A file in a folder that is open may be opened, and nothing may while the folders are not known:
/// an absolute path without steps is let through exactly where it lies under one of the folders.
pub proof fn law_files_in_open_folders_may_be_opened(folders: Seq<Text>, p: Text, cwd: Text)
    requires
        absolute(p),
        forall|i: int| 1 <= i < path_parts(p).len() ==> (#[trigger] path_parts(p)[i]) is Name,
        path_parts(p).len() > 0 && path_parts(p)[0] is Root,
    ensures
        path_parts(resolve(p, cwd)) == path_parts(p),
        may_open(true, folders, p, cwd) <==> exists|i: int| 0 <= i < folders.len() && under(p, #[trigger] folders[i]),
        !may_open(false, folders, p, cwd),
{
    lemma_resolve(p, cwd);
    let v = path_parts(p);
    let names = v.drop_first();
    lemma_rooted(v);
    assert forall|i: int| 0 <= i < names.len() implies (#[trigger] names[i]) is Name by {
        assert(names[i] == v[i + 1]);
    }
    lemma_straight(names);
    assert(seq![Part::Root] + names =~= v);
    assert(path_join(cwd, p) == p);
    let r = resolve(p, cwd);
    assert(forall|b: Text| #[trigger] under(r, b) == under(p, b));
    if may_open(true, folders, p, cwd) {
        let i = choose|i: int| 0 <= i < folders.len() && under(r, #[trigger] folders[i]);
        assert(under(p, folders[i]));
    }
    if exists|i: int| 0 <= i < folders.len() && under(p, #[trigger] folders[i]) {
        let i = choose|i: int| 0 <= i < folders.len() && under(p, #[trigger] folders[i]);
        assert(under(r, folders[i]));
    }
}

/// A path lies under itself, what lies under a folder lies under everything that the folder lies
/// under, and it lies inside a folder only where it goes on behind it.
pub proof fn law_being_under_is_passed_on(a: Text, b: Text, c: Text)
    ensures
        under(a, a),
        under(a, b) && under(b, c) ==> under(a, c),
        inside(b, a) ==> under(a, b) && !under(b, a),
        !inside(a, a),
{
    let (pa, pb, pc) = (path_parts(a), path_parts(b), path_parts(c));
    assert(pa.take(pa.len() as int) =~= pa);
    if under(a, b) && under(b, c) {
        assert(pa.take(pc.len() as int) =~= pb.take(pc.len() as int));
    }
}

/// A path that starts at the root is taken as it is, whatever it is joined to, and every other is
/// read from its base.
pub proof fn law_absolute_paths_replace_their_base(base: Text, name: Text)
    ensures
        absolute(name) <==> name.len() > 0 && name[0] == '/',
        absolute(name) ==> path_join(base, name) == name,
        !absolute(name) && base.len() > 0 && base.last() != '/' ==> path_join(base, name) == base + "/"@ + name,
        !absolute(name) && base.len() > 0 && base.last() == '/' ==> path_join(base, name) == base + name,
        !absolute(name) && base.len() > 0 ==> absolute(path_join(base, name)) == absolute(base),
{
    reveal_strlit("/");
    assert("/"@ =~= seq!['/']);
}

/// Empty pieces and steps in place behind a name say nothing, and a step up is kept as one.
pub proof fn law_pieces_say_what_they_are(pieces: Seq<Text>, abs: bool)
    requires
        pieces.len() > 0,
    ensures
        parts_of(pieces.push(Seq::empty()), abs) == parts_of(pieces, abs),
        parts_of(pieces.push("."@), abs) == parts_of(pieces, abs),
        parts_of(pieces.push(".."@), abs) == parts_of(pieces, abs).push(Part::Parent),
        parts_of(Seq::<Text>::empty(), true) == seq![Part::Root],
        parts_of(Seq::<Text>::empty(), false) == Seq::<Part>::empty(),
        parts_of(seq!["."@], false) == seq![Part::Cur],
{
    reveal_strlit(".");
    reveal_strlit("..");
    assert("."@ =~= seq!['.']);
    assert(".."@ =~= seq!['.', '.']);
    assert(seq!['.', '.'].len() == 2 && seq!['.'].len() == 1);
    assert(pieces.push(Seq::empty()).drop_last() =~= pieces);
    assert(pieces.push("."@).drop_last() =~= pieces);
    assert(pieces.push(".."@).drop_last() =~= pieces);
    assert(seq!["."@].drop_last() =~= Seq::<Text>::empty());
    assert(parts_of(seq!["."@], false) =~= seq![Part::Cur]) by {
        assert(seq!["."@].last() == "."@);
        assert(parts_of(Seq::<Text>::empty(), false) =~= Seq::<Part>::empty());
    }
}

}
