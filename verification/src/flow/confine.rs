//! Confinement by real location: a managed path is used only when the place it really leads to
//! lies under the real root. Which paths to canonicalize, and what to make of the answers, is
//! decided here.

use vstd::prelude::*;
use vstd::string::*;

use crate::flow::graph::Text;
use crate::paths::{
    absolute, components, inside, law_joined_names_are_inside, lemma_split_last, lexically_inside, parts, parts_of, path_join, path_parts,
    path_starts_with, plain_name, under, Component, Part,
};
use crate::text::{join, joined, law_joined_pieces_split_back, lemma_joined_front, opt_str, split, texts};

verus! {

/// How a component is spelled; the root is the empty piece before the first slash.
pub open spec fn spelling(p: Part) -> Text {
    match p {
        Part::Root => Seq::empty(),
        Part::Cur => seq!['.'],
        Part::Parent => seq!['.', '.'],
        Part::Name(s) => s,
    }
}

/// The path of these components.
pub open spec fn spelled(v: Seq<Part>) -> Text {
    if v.len() == 1 && v[0] == Part::Root {
        seq!['/']
    } else {
        joined(v.map_values(|p: Part| spelling(p)), seq!['/'])
    }
}

/// The components of the directory that holds the path; a bare root has none.
pub open spec fn parent_parts(v: Seq<Part>) -> Option<Seq<Part>> {
    if v.len() == 0 || v.last() == Part::Root {
        None
    } else {
        Some(v.drop_last())
    }
}

/// The paths to look at in order to find the nearest one that exists: the parent, its parent,
/// and so on up.
pub open spec fn ancestors_of(v: Seq<Part>) -> Seq<Text>
    decreases v.len(),
{
    match parent_parts(v) {
        None => Seq::empty(),
        Some(up) => if v.len() > 0 { seq![spelled(up)] + ancestors_of(up) } else { Seq::empty() },
    }
}

/// What is canonicalized to confine `full`: the path itself where it must exist, else its
/// ancestors.
pub open spec fn probes_of(full: Text, must_exist: bool) -> Seq<Text> {
    if must_exist {
        seq![full]
    } else {
        ancestors_of(path_parts(full))
    }
}

fn spell(comps: &Vec<Component>, n: usize) -> (r: String)
    requires
        n <= comps@.len(),
    ensures
        r@ == spelled(parts(comps@).take(n as int)),
{
    proof {
        reveal_strlit("/");
        reveal_strlit(".");
        reveal_strlit("..");
        reveal_strlit("");
        assert("/"@ =~= seq!['/']);
        assert("."@ =~= seq!['.']);
        assert(".."@ =~= seq!['.', '.']);
        assert(""@ =~= Seq::<char>::empty());
    }
    let ghost all = parts(comps@).take(n as int);
    if n == 1 {
        if let Component::RootDir = &comps[0] {
            return "/".to_owned();
        }
    }
    let mut pieces: Vec<String> = Vec::new();
    let mut i: usize = 0;
    while i < n
        invariant
            i <= n <= comps@.len(),
            all == parts(comps@).take(n as int),
            "."@ == seq!['.'],
            ".."@ == seq!['.', '.'],
            ""@ == Seq::<char>::empty(),
            pieces@.len() == i,
            forall|j: int| 0 <= j < i ==> #[trigger] pieces@[j]@ == spelling(all[j]),
        decreases n - i,
    {
        let piece = match &comps[i] {
            Component::RootDir => "".to_owned(),
            Component::CurDir => ".".to_owned(),
            Component::ParentDir => "..".to_owned(),
            Component::Normal(s) => s.clone(),
        };
        assert(all[i as int] == comps@[i as int]@);
        pieces.push(piece);
        i += 1;
    }
    assert(texts(pieces@) =~= all.map_values(|p: Part| spelling(p)));
    join(&pieces, "/")
}

/// The paths to canonicalize, in order, until one exists.
pub fn probes(full: &str, must_exist: bool) -> (r: Vec<String>)
    ensures
        texts(r@) == probes_of(full@, must_exist),
{
    let mut out: Vec<String> = Vec::new();
    if must_exist {
        out.push(full.to_owned());
        assert(texts(out@) =~= seq![full@]);
        return out;
    }
    let comps = components(full);
    let ghost all = path_parts(full@);
    let mut n: usize = comps.len();
    assert(all.take(n as int) =~= all);
    assert(texts(out@) =~= Seq::<Text>::empty());
    assert(Seq::<Text>::empty() + ancestors_of(all) =~= ancestors_of(all));
    while n > 0 && !matches!(comps[n - 1], Component::RootDir)
        invariant
            n <= comps@.len(),
            all == parts(comps@),
            ancestors_of(all) == texts(out@) + ancestors_of(all.take(n as int)),
        decreases n,
    {
        let ghost before = texts(out@);
        let ghost up = all.take(n - 1);
        out.push(spell(&comps, n - 1));
        proof {
            assert(all.take(n as int).last() == comps@[n - 1]@);
            assert(all.take(n as int).drop_last() =~= up);
            assert(texts(out@) =~= before.push(spelled(up)));
            assert(before + (seq![spelled(up)] + ancestors_of(up)) =~= before.push(spelled(up)) + ancestors_of(up));
        }
        n -= 1;
    }
    proof {
        if n > 0 {
            assert(all.take(n as int).last() == comps@[n - 1]@);
        }
        assert(ancestors_of(all.take(n as int)) =~= Seq::<Text>::empty());
        assert(texts(out@) + Seq::<Text>::empty() =~= texts(out@));
    }
    out
}

/// The paths to canonicalize before `full` is written: the path itself where something is there
/// already, be it a link, so that a write never follows one out of the root; else its ancestors.
pub fn write_probes(full: &str, exists: bool) -> (r: Vec<String>)
    ensures
        texts(r@) == probes_of(full@, exists),
{
    probes(full, exists)
}

/// The directory that holds `path`.
pub fn parent_of(path: &str) -> (r: Option<String>)
    ensures
        match r {
            Some(d) => parent_parts(path_parts(path@)) is Some && d@ == spelled(parent_parts(path_parts(path@))->0),
            None => parent_parts(path_parts(path@)) is None,
        },
{
    let comps = components(path);
    let ghost all = path_parts(path@);
    let n: usize = comps.len();
    if n == 0 || matches!(comps[n - 1], Component::RootDir) {
        assert(n > 0 ==> all.last() == comps@[n - 1]@);
        return None;
    }
    assert(all.last() == comps@[n - 1]@);
    assert(all.take(n - 1) =~= all.drop_last());
    Some(spell(&comps, n - 1))
}

/// The path is accepted: spelled strictly inside the root, and really under the real root.
pub open spec fn confined(root: Text, full: Text, real_root: Option<Text>, place: Option<Text>) -> bool {
    &&& inside(root, full)
    &&& real_root is Some
    &&& place is Some
    &&& under(place->0, real_root->0)
}

/// Validates the real location, returns the lexical path: `real_root` is the canonical root,
/// `place` the canonical form of the first of the `probes` that exists.
pub fn confine_real_abs(root: &str, full: &str, real_root: Option<&str>, place: Option<&str>) -> (r: Option<String>)
    ensures
        r is Some <==> confined(root@, full@, opt_str(real_root), opt_str(place)),
        r matches Some(p) ==> p@ == full@,
{
    if !lexically_inside(root, full) {
        return None;
    }
    match (real_root, place) {
        (Some(top), Some(at)) => {
            if path_starts_with(at, top) {
                Some(full.to_owned())
            } else {
                None
            }
        },
        _ => None,
    }
}

/// The root itself is never accepted as a path inside it, whatever the disk says.
pub proof fn law_root_is_not_inside_itself(root: Text, real_root: Option<Text>, place: Option<Text>)
    ensures
        !confined(root, root, real_root, place),
{
}

/// What is there already is written only where it really lies inside the root: it is the path
/// itself that is looked at, and where that leads out of the root, or nowhere, it is refused.
pub proof fn law_links_out_are_never_written(root: Text, full: Text, real_root: Option<Text>, place: Option<Text>)
    requires
        place is None || (real_root is Some && !under(place->0, real_root->0)),
    ensures
        probes_of(full, true) == seq![full],
        !confined(root, full, real_root, place),
{
}

/// A path whose real location is outside the real root is refused, however it is spelled.
pub proof fn law_real_location_decides(root: Text, full: Text, real_root: Text, place: Text)
    requires
        !under(place, real_root),
    ensures
        !confined(root, full, Some(real_root), Some(place)),
{
}

/// The parts stand as parts of a path can: the root only first, a step in place only first and where
/// there is no root, and names that are names.
pub open spec fn well_placed(v: Seq<Part>) -> bool {
    &&& forall|i: int| 1 <= i < v.len() ==> !((#[trigger] v[i]) is Root) && !(v[i] is Cur)
    &&& forall|i: int| 0 <= i < v.len() && (#[trigger] v[i]) is Name ==> plain_name(v[i]->Name_0)
}

/// How the parts are spelled, piece by piece.
pub open spec fn spellings(v: Seq<Part>) -> Seq<Text> {
    v.map_values(|p: Part| spelling(p))
}

proof fn lemma_spelled_parts(v: Seq<Part>, abs: bool)
    requires
        well_placed(v),
        v.len() > 0,
        abs == (v[0] is Root),
    ensures
        parts_of(spellings(v), abs) == v,
    decreases v.len(),
{
    let pieces = spellings(v);
    let front = v.drop_last();
    assert(pieces.drop_last() =~= spellings(front));
    assert(pieces.last() == spelling(v.last()));
    if v.len() == 1 {
        assert(spellings(front) =~= Seq::empty());
        assert(parts_of(spellings(front), abs) =~= if abs { seq![Part::Root] } else { Seq::empty() });
        assert(v =~= seq![v[0]]);
    } else {
        assert(well_placed(front)) by {
            assert forall|i: int| 1 <= i < front.len() implies !((#[trigger] front[i]) is Root) && !(front[i] is Cur) by {
                assert(front[i] == v[i]);
            }
            assert forall|i: int| 0 <= i < front.len() && (#[trigger] front[i]) is Name implies plain_name(front[i]->Name_0) by {
                assert(front[i] == v[i]);
            }
        }
        lemma_spelled_parts(front, abs);
        assert(!(v[v.len() - 1] is Root) && !(v[v.len() - 1] is Cur));
        assert(front.push(v.last()) =~= v);
    }
}

/// A path that is put together from its parts has those parts.
pub proof fn law_spelled_paths_keep_their_parts(v: Seq<Part>)
    requires
        well_placed(v),
        v.len() > 0,
    ensures
        path_parts(spelled(v)) == v,
{
    let pieces = spellings(v);
    if v.len() == 1 && v[0] == Part::Root {
        let empty = Seq::<char>::empty();
        let p = seq!['/'];
        assert(p =~= empty.push('/') + empty);
        lemma_split_last(empty, empty, '/');
        assert(split(empty, '/') =~= seq![empty]);
        assert(split(p, '/') =~= seq![empty, empty]);
        assert(seq![empty, empty].drop_last() =~= seq![empty]);
        assert(seq![empty].drop_last() =~= Seq::<Text>::empty());
        assert(parts_of(Seq::<Text>::empty(), true) =~= seq![Part::Root]);
        assert(parts_of(seq![empty], true) == parts_of(Seq::<Text>::empty(), true));
        assert(parts_of(seq![empty, empty], true) == parts_of(seq![empty], true));
        assert(v =~= seq![Part::Root]);
    } else {
        assert forall|k: int| 0 <= k < pieces.len() implies !(#[trigger] pieces[k]).contains('/') by {
            assert(pieces[k] == spelling(v[k]));
            if v[k] is Name {
                assert(plain_name(v[k]->Name_0));
            }
        }
        law_joined_pieces_split_back(pieces, '/');
        let p = spelled(v);
        assert(p == joined(pieces, seq!['/']));
        assert(pieces[0] == spelling(v[0]));
        if v.len() > 1 {
            lemma_joined_front(pieces, seq!['/']);
        }
        assert(absolute(p) == (v[0] is Root)) by {
            if v[0] is Name {
                let n = v[0]->Name_0;
                assert(plain_name(n));
                assert(n.contains(n[0]));
            }
        }
        lemma_spelled_parts(v, v[0] is Root);
    }
}

/// A path that must exist is asked for itself; one that need not is asked for by the folders above
/// it, the nearest first, up to the root.
pub proof fn law_the_nearest_folder_is_asked_first(dir: Text, name: Text)
    requires
        plain_name(name),
    ensures
        probes_of(path_join(dir, name), true) == seq![path_join(dir, name)],
        probes_of(path_join(dir, name), false).len() > 0,
        probes_of(path_join(dir, name), false)[0] == spelled(path_parts(dir)),
        probes_of(path_join(dir, name), false).drop_first() == probes_of(dir, false),
{
    law_joined_names_are_inside(dir, name);
    let v = path_parts(dir).push(Part::Name(name));
    assert(v.last() == Part::Name(name));
    assert(v.drop_last() =~= path_parts(dir));
    assert(ancestors_of(v) == seq![spelled(path_parts(dir))] + ancestors_of(path_parts(dir)));
    assert(ancestors_of(v).drop_first() =~= ancestors_of(path_parts(dir)));
}

/// A path is held to its root exactly where it is spelled inside it and where the place it really
/// leads to lies under the place that the root really is.
pub proof fn law_paths_are_held_by_name_and_place(root: Text, full: Text, real_root: Text, place: Text)
    ensures
        inside(root, full) && under(place, real_root) ==> confined(root, full, Some(real_root), Some(place)),
        !inside(root, full) ==> !confined(root, full, Some(real_root), Some(place)),
        !under(place, real_root) ==> !confined(root, full, Some(real_root), Some(place)),
        !confined(root, full, None, Some(place)) && !confined(root, full, Some(real_root), None),
{
}

}
