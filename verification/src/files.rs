//! Folders as they are shown, files that are watched, and errors as they are told.

use vstd::prelude::*;
use vstd::string::*;

use crate::flow::graph::Text;
use crate::sorting::{in_order, law_order_keeps_what_came, sort, Ranked};
use crate::strmap::StrMap;
use crate::text::{chars_of, join2, join3, lemma_lex_chain, lemma_lex_total, less, lex_less, same, string_of};

verus! {

// ---- errors ----

/// The kinds of errors that are told by a code.
#[derive(PartialEq, Eq, Structural, Clone, Copy, Debug)]
pub enum IoKind {
    NotFound,
    AlreadyExists,
    PermissionDenied,
    NotADirectory,
    Other,
}

pub open spec fn io_code(kind: IoKind) -> Option<Text> {
    match kind {
        IoKind::NotFound => Some("ENOENT"@),
        IoKind::AlreadyExists => Some("EEXIST"@),
        IoKind::PermissionDenied => Some("EACCES"@),
        IoKind::NotADirectory => Some("ENOTDIR"@),
        IoKind::Other => None,
    }
}

/// The code where there is one, the message, and the path in quotes.
pub open spec fn io_text(kind: IoKind, message: Text, path: Text) -> Text {
    let told = message + ", '"@ + path + "'"@;
    match io_code(kind) {
        Some(code) => code + ": "@ + told,
        None => told,
    }
}

/// An error as it is told.
pub fn fmt_io_err(kind: IoKind, message: &str, path: &str) -> (r: String)
    ensures
        r@ == io_text(kind, message@, path@),
{
    let head = join3(message, ", '", path);
    let told = join2(&head, "'");
    match kind {
        IoKind::NotFound => join3("ENOENT", ": ", &told),
        IoKind::AlreadyExists => join3("EEXIST", ": ", &told),
        IoKind::PermissionDenied => join3("EACCES", ": ", &told),
        IoKind::NotADirectory => join3("ENOTDIR", ": ", &told),
        IoKind::Other => told,
    }
}

// ---- folders ----

/// Something in a folder.
#[derive(Debug)]
pub struct Entry {
    pub name: String,
    pub dir: bool,
}

/// `c` in lower case, where it is a letter of ASCII.
pub open spec fn lower(c: char) -> char {
    if 'A' <= c <= 'Z' {
        (c as u32 + 32) as char
    } else {
        c
    }
}

pub open spec fn folded(s: Text) -> Text {
    s.map_values(|c: char| lower(c))
}

fn lower_char(c: char) -> (r: char)
    ensures
        r == lower(c),
{
    if c >= 'A' && c <= 'Z' {
        (c as u8 + 32) as char
    } else {
        c
    }
}

/// `s` with the letters of ASCII in lower case.
pub fn fold_case(s: &str) -> (r: String)
    ensures
        r@ == folded(s@),
{
    let a = chars_of(s);
    let mut out: Vec<char> = Vec::new();
    let mut i: usize = 0;
    while i < a.len()
        invariant
            i <= a@.len(),
            a@ == s@,
            out@ == folded(s@).take(i as int),
        decreases a@.len() - i,
    {
        out.push(lower_char(a[i]));
        assert(folded(s@).take(i + 1) =~= folded(s@).take(i as int).push(folded(s@)[i as int]));
        i += 1;
    }
    assert(out@ =~= folded(s@));
    let n: usize = out.len();
    let r = string_of(&out, 0, n);
    assert(r@ =~= folded(s@));
    r
}

/// Folders come before files; among either, names go by their letters whatever the case, and by
/// case where nothing else tells them apart.
pub open spec fn entry_before(a: Entry, b: Entry) -> bool {
    if a.dir != b.dir {
        a.dir
    } else if folded(a.name@) != folded(b.name@) {
        lex_less(folded(a.name@), folded(b.name@))
    } else {
        lex_less(a.name@, b.name@)
    }
}

impl Ranked for Entry {
    open spec fn ahead(self, other: Self) -> bool {
        entry_before(self, other)
    }

    fn is_ahead(&self, other: &Self) -> (r: bool) {
        if self.dir != other.dir {
            return self.dir;
        }
        let a = fold_case(&self.name);
        let b = fold_case(&other.name);
        if !same(&a, &b) {
            return less(&a, &b);
        }
        less(&self.name, &other.name)
    }

    proof fn lemma_one_way(a: Self, b: Self) {
        lemma_lex_total(folded(a.name@), folded(b.name@));
        lemma_lex_total(a.name@, b.name@);
    }

    proof fn lemma_chain(a: Self, b: Self, c: Self) {
        if !b.ahead(a) && !c.ahead(b) && a.dir == b.dir && b.dir == c.dir {
            lemma_lex_total(folded(a.name@), folded(b.name@));
            lemma_lex_total(folded(b.name@), folded(c.name@));
            lemma_lex_total(folded(a.name@), folded(c.name@));
            lemma_lex_chain(folded(a.name@), folded(b.name@), folded(c.name@));
            if folded(a.name@) == folded(c.name@) {
                lemma_lex_chain(a.name@, b.name@, c.name@);
            }
        }
    }
}

/// What is never shown.
pub open spec fn shown(e: Entry) -> bool {
    e.name@ != ".git"@ && e.name@ != ".DS_Store"@
}

pub open spec fn is_shown() -> spec_fn(Entry) -> bool {
    |e: Entry| shown(e)
}

/// A folder as it is shown.
pub fn read_dir(found: Vec<Entry>) -> (r: Vec<Entry>)
    ensures
        r@ == in_order(found@.filter(is_shown())),
{
    let ghost all = found@;
    let mut rest = found;
    let mut out: Vec<Entry> = Vec::new();
    let ghost mut done: int = 0;
    proof {
        reveal(Seq::filter);
        assert(all.take(0) =~= Seq::<Entry>::empty());
        assert(all.skip(0) =~= all);
    }
    while rest.len() > 0
        invariant
            0 <= done <= all.len(),
            rest@ == all.skip(done),
            out@ == all.take(done).filter(is_shown()),
        decreases rest@.len(),
    {
        let e = rest.remove(0);
        proof {
            reveal(Seq::filter);
            assert(e == all[done]);
            assert(all.take(done + 1).drop_last() =~= all.take(done));
            assert(all.take(done + 1).last() == e);
            assert(rest@ =~= all.skip(done + 1));
            done = done + 1;
        }
        if !same(&e.name, ".git") && !same(&e.name, ".DS_Store") {
            out.push(e);
        }
    }
    assert(all.take(done) =~= all);
    sort(out)
}

/// Two things of different names in one folder are always told apart: the order they are shown
/// in never depends on the order in which they were found.
pub proof fn law_names_decide_the_order(a: Entry, b: Entry)
    requires
        a.name@ != b.name@,
    ensures
        entry_before(a, b) != entry_before(b, a),
{
    lemma_lex_total(folded(a.name@), folded(b.name@));
    lemma_lex_total(a.name@, b.name@);
}

/// A folder shows exactly what was found in it, as often as it was found, but for what is named
/// `.git` or `.DS_Store` to the letter: nothing else is left out, whatever its name begins with,
/// and nothing is added.
pub proof fn law_only_two_names_are_left_out(found: Seq<Entry>, r: Seq<Entry>, e: Entry)
    requires
        r == in_order(found.filter(is_shown())),
    ensures
        r.contains(e) <==> found.contains(e) && e.name@ != ".git"@ && e.name@ != ".DS_Store"@,
        e.name@ != ".git"@ && e.name@ != ".DS_Store"@ ==> r.to_multiset().count(e) == found.to_multiset().count(e),
        e.name@ == ".git"@ || e.name@ == ".DS_Store"@ ==> r.to_multiset().count(e) == 0,
{
    broadcast use vstd::seq_lib::group_to_multiset_ensures;

    let kept = found.filter(is_shown());
    law_order_keeps_what_came(kept);
    lemma_filter_counts(found, e);
    assert(r.to_multiset() == kept.to_multiset());
    assert(r.contains(e) <==> r.to_multiset().count(e) > 0);
    assert(found.contains(e) <==> found.to_multiset().count(e) > 0);
}

proof fn lemma_filter_counts(found: Seq<Entry>, e: Entry)
    ensures
        found.filter(is_shown()).to_multiset().count(e) == if shown(e) { found.to_multiset().count(e) } else { 0 },
    decreases found.len(),
{
    broadcast use vstd::seq_lib::group_to_multiset_ensures;

    reveal(Seq::filter);
    if found.len() > 0 {
        let rest = found.drop_last();
        lemma_filter_counts(rest, e);
        assert(rest.push(found.last()) =~= found);
    }
}

/// In a folder as it is shown every folder stands before every file, and of two of a kind none
/// stands behind one whose letters come later.
pub proof fn law_folders_come_before_files(found: Seq<Entry>, r: Seq<Entry>, i: int, j: int)
    requires
        r == in_order(found.filter(is_shown())),
        0 <= i < j < r.len(),
    ensures
        r[j].dir ==> r[i].dir,
        r[i].dir == r[j].dir ==> !earlier(r[j].name@, r[i].name@),
{
    law_order_keeps_what_came(found.filter(is_shown()));
    assert(!r[j].ahead(r[i]));
    if r[i].dir == r[j].dir && earlier(r[j].name@, r[i].name@) {
        lemma_earlier(r[j].name@, r[i].name@);
        lemma_lex_total(folded(r[i].name@), folded(r[j].name@));
    }
}

/// The number of a character that two letters of ASCII share when they differ in case alone.
pub open spec fn caseless(c: char) -> int {
    if 65 <= c as int <= 90 {
        c as int + 32
    } else {
        c as int
    }
}

/// `a` goes on as `b` does, whatever the case, up to `k`, where it has an earlier letter or ends.
pub open spec fn earlier_at(a: Text, b: Text, k: int) -> bool {
    &&& 0 <= k <= a.len()
    &&& k < b.len()
    &&& forall|m: int| 0 <= m < k ==> caseless(#[trigger] a[m]) == caseless(b[m])
    &&& k == a.len() || caseless(a[k]) < caseless(b[k])
}

/// The letters of `a` come before those of `b`.
pub open spec fn earlier(a: Text, b: Text) -> bool {
    exists|k: int| earlier_at(a, b, k)
}

proof fn lemma_earlier(a: Text, b: Text)
    requires
        earlier(a, b),
    ensures
        lex_less(folded(a), folded(b)),
{
    let k = choose|k: int| earlier_at(a, b, k);
    lemma_earlier_at(a, b, k);
}

proof fn lemma_earlier_at(a: Text, b: Text, k: int)
    requires
        earlier_at(a, b, k),
    ensures
        lex_less(folded(a), folded(b)),
    decreases k,
{
    let x = folded(a);
    let y = folded(b);
    if k > 0 {
        assert(caseless(a[0]) == caseless(b[0]));
        assert(x[0] == lower(a[0]) && y[0] == lower(b[0]));
        assert(lower(a[0]) == lower(b[0]));
        let p = a.drop_first();
        let q = b.drop_first();
        assert forall|m: int| 0 <= m < k - 1 implies caseless(#[trigger] p[m]) == caseless(q[m]) by {
            assert(p[m] == a[m + 1] && q[m] == b[m + 1]);
        }
        if k < a.len() {
            assert(p[k - 1] == a[k] && q[k - 1] == b[k]);
        }
        lemma_earlier_at(p, q, k - 1);
        assert(x.drop_first() =~= folded(p));
        assert(y.drop_first() =~= folded(q));
    } else if a.len() > 0 {
        assert(x[0] == lower(a[0]) && y[0] == lower(b[0]));
        assert(lower(a[0]) < lower(b[0]));
    }
}

// ---- watching ----

/// The paths that are watched, and by how many each.
pub struct Watches {
    counts: StrMap<u32>,
}

impl Watches {
    #[verifier::type_invariant]
    spec fn counted(self) -> bool {
        forall|k: Text| #[trigger] self.counts@.contains_key(k) ==> self.counts@[k] >= 1
    }
}

impl View for Watches {
    type V = Map<Text, u32>;

    closed spec fn view(&self) -> Map<Text, u32> {
        self.counts@
    }
}

/// One more watches `path`; a path that nobody watched yet needs a watcher, which may fail.
pub open spec fn watched(m: Map<Text, u32>, path: Text, registers: bool) -> Map<Text, u32> {
    if m.contains_key(path) {
        m.insert(path, (m[path] + 1) as u32)
    } else if registers {
        m.insert(path, 1)
    } else {
        m
    }
}

/// One less watches `path`.
pub open spec fn unwatched(m: Map<Text, u32>, path: Text) -> Map<Text, u32> {
    if !m.contains_key(path) {
        m
    } else if m[path] == 1 {
        m.remove(path)
    } else {
        m.insert(path, (m[path] - 1) as u32)
    }
}

impl Watches {
    /// Nothing is watched.
    pub fn new() -> (r: Self)
        ensures
            r@ == Map::<Text, u32>::empty(),
    {
        Watches { counts: StrMap::new() }
    }

    /// How many watch `path`.
    pub fn count(&self, path: &str) -> (r: u32)
        ensures
            r == if self@.contains_key(path@) { self@[path@] } else { 0 },
            r > 0 <==> self@.contains_key(path@),
    {
        proof { use_type_invariant(self); }
        match self.counts.get(path) {
            Some(n) => *n,
            None => 0,
        }
    }

    /// Watches `path`; whether it is watched now. `registers` says whether a watcher could be set
    /// up for it: that is asked of a path only that nobody watched yet.
    pub fn watch_with(&mut self, path: &str, registers: bool) -> (r: bool)
        requires
            old(self)@.contains_key(path@) ==> old(self)@[path@] < u32::MAX,
        ensures
            r == (old(self)@.contains_key(path@) || registers),
            final(self)@ == watched(old(self)@, path@, registers),
    {
        proof { use_type_invariant(&*self); }
        let mut counts = StrMap::new();
        std::mem::swap(&mut counts, &mut self.counts);
        let known: Option<u32> = match counts.get(path) {
            Some(n) => Some(*n),
            None => None,
        };
        let r = match known {
            Some(n) => {
                counts.set(path, n + 1);
                true
            },
            None => {
                if registers {
                    counts.set(path, 1);
                }
                registers
            },
        };
        self.counts = counts;
        r
    }

    /// Stops watching `path`; whether its watcher is to be dropped, as the last one stopped.
    pub fn unwatch(&mut self, path: &str) -> (r: bool)
        ensures
            r == (old(self)@.contains_key(path@) && old(self)@[path@] == 1),
            final(self)@ == unwatched(old(self)@, path@),
    {
        proof { use_type_invariant(&*self); }
        let mut counts = StrMap::new();
        std::mem::swap(&mut counts, &mut self.counts);
        let known: Option<u32> = match counts.get(path) {
            Some(n) => Some(*n),
            None => None,
        };
        let r = match known {
            Some(n) => {
                if n == 1 {
                    counts.remove(path);
                    true
                } else {
                    counts.set(path, n - 1);
                    false
                }
            },
            None => false,
        };
        self.counts = counts;
        r
    }
}

/// Stopping undoes watching: a path is watched as long as it was watched more often than stopped.
pub proof fn law_unwatching_undoes_watching(m: Map<Text, u32>, path: Text)
    requires
        m.contains_key(path) ==> 1 <= m[path] < u32::MAX,
    ensures
        unwatched(watched(m, path, true), path) == m,
        watched(m, path, true).contains_key(path),
        m.contains_key(path) && m[path] > 1 ==> unwatched(m, path).contains_key(path),
        m.contains_key(path) && m[path] == 1 ==> !unwatched(m, path).contains_key(path),
{
    assert(unwatched(watched(m, path, true), path) =~= m);
}

/// A failure is told by its code where it has one, with what went wrong and the path that it went
/// wrong with.
pub proof fn law_failures_name_their_path(message: Text, path: Text)
    ensures
        io_text(IoKind::NotFound, message, path) == "ENOENT: "@ + message + ", '"@ + path + "'"@,
        io_text(IoKind::AlreadyExists, message, path) == "EEXIST: "@ + message + ", '"@ + path + "'"@,
        io_text(IoKind::PermissionDenied, message, path) == "EACCES: "@ + message + ", '"@ + path + "'"@,
        io_text(IoKind::NotADirectory, message, path) == "ENOTDIR: "@ + message + ", '"@ + path + "'"@,
        io_text(IoKind::Other, message, path) == message + ", '"@ + path + "'"@,
{
    reveal_strlit("ENOENT");
    reveal_strlit("EEXIST");
    reveal_strlit("EACCES");
    reveal_strlit("ENOTDIR");
    reveal_strlit("ENOENT: ");
    reveal_strlit("EEXIST: ");
    reveal_strlit("EACCES: ");
    reveal_strlit("ENOTDIR: ");
    reveal_strlit(": ");
    assert(io_text(IoKind::NotFound, message, path) =~= "ENOENT: "@ + message + ", '"@ + path + "'"@);
    assert(io_text(IoKind::AlreadyExists, message, path) =~= "EEXIST: "@ + message + ", '"@ + path + "'"@);
    assert(io_text(IoKind::PermissionDenied, message, path) =~= "EACCES: "@ + message + ", '"@ + path + "'"@);
    assert(io_text(IoKind::NotADirectory, message, path) =~= "ENOTDIR: "@ + message + ", '"@ + path + "'"@);
}

/// Watches are counted path by path: another watch of a path counts one more, one that does not
/// register counts nothing new, and no other path is touched.
pub proof fn law_watches_are_counted_by_path(m: Map<Text, u32>, path: Text, other: Text)
    requires
        other != path,
        m.contains_key(path) ==> 1 <= m[path] < u32::MAX,
    ensures
        m.contains_key(path) ==> watched(m, path, true)[path] == m[path] + 1 && watched(m, path, false)[path] == m[path] + 1,
        !m.contains_key(path) ==> watched(m, path, true)[path] == 1 && watched(m, path, false) == m,
        m.contains_key(path) && m[path] > 1 ==> unwatched(m, path)[path] == m[path] - 1,
        watched(m, path, true).contains_key(other) == m.contains_key(other) && unwatched(m, path).contains_key(other) == m.contains_key(other),
        m.contains_key(other) ==> watched(m, path, true)[other] == m[other] && unwatched(m, path)[other] == m[other],
{
}

}
