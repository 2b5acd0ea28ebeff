//! Documents that are handed to the viewer as bytes.

use vstd::prelude::*;
use vstd::string::*;

use crate::flow::graph::Text;
use crate::paths::{components, law_joined_names_are_inside, parts, path_join, path_parts, plain_name, Component, Part};
use crate::text::{begins, chars_of, ends, join2, law_beginnings_and_ends, lowercase, lowercased, same, string_of, texts};

verus! {

// ---- which documents ----

/// The kinds of documents that are served.
pub fn doc_extensions() -> (r: Vec<String>)
    ensures
        texts(r@) == seq![".docx"@, ".xlsx"@, ".xls"@],
{
    let v = vec![".docx".to_owned(), ".xlsx".to_owned(), ".xls".to_owned()];
    assert(texts(v@) =~= seq![".docx"@, ".xlsx"@, ".xls"@]);
    v
}

/// The name of the file that a path ends in; none where it ends in the root or in `..`.
pub open spec fn file_name(p: Text) -> Option<Text> {
    let v = path_parts(p);
    if v.len() == 0 {
        None
    } else {
        match v.last() {
            Part::Name(n) => Some(n),
            _ => None,
        }
    }
}

/// `i` is the last dot in the name.
pub open spec fn last_dot(name: Text, i: int) -> bool {
    0 <= i < name.len() && name[i] == '.' && forall|j: int| i < j < name.len() ==> #[trigger] name[j] != '.'
}

/// What follows the last dot of a file's name; a dot in front makes no extension.
pub open spec fn extension(p: Text) -> Option<Text> {
    match file_name(p) {
        Some(n) => if exists|i: int| #[trigger] last_dot(n, i) && i > 0 {
            Some(n.skip(choose|i: int| #[trigger] last_dot(n, i) && i > 0).drop_first())
        } else {
            None
        },
        None => None,
    }
}

/// The extension of a path, in lower case and with its dot; empty where there is none.
pub open spec fn extname(p: Text) -> Text {
    match extension(p) {
        Some(e) => seq!['.'] + lowercase(e),
        None => Seq::empty(),
    }
}

/// What follows the last dot of a file's name.
pub fn extension_of(path: &str) -> (r: Option<String>)
    ensures
        r is Some <==> extension(path@) is Some,
        r is Some ==> r->0@ == extension(path@)->0,
{
    let v = components(path);
    let n: usize = v.len();
    assert(parts(v@).len() == v@.len());
    if n == 0 {
        return None;
    }
    assert(path_parts(path@).last() == v@[n - 1]@);
    let name = match &v[n - 1] {
        Component::Normal(s) => s,
        _ => return None,
    };
    let a = chars_of(name);
    let len: usize = a.len();
    let mut i: usize = len;
    while i > 0 && a[i - 1] != '.'
        invariant
            i <= len,
            len == a@.len(),
            forall|j: int| i <= j < len ==> #[trigger] a@[j] != '.',
        decreases i,
    {
        i -= 1;
    }
    if i <= 1 {
        proof {
            assert forall|k: int| !(#[trigger] last_dot(name@, k) && k > 0) by {
                if last_dot(name@, k) && k > 0 {
                    assert(a@[k] != '.');
                }
            }
        }
        return None;
    }
    proof {
        assert(file_name(path@) == Some(name@));
        assert(last_dot(name@, i - 1) && i - 1 > 0);
        assert(exists|k: int| #[trigger] last_dot(name@, k) && k > 0);
        let k = choose|k: int| #[trigger] last_dot(name@, k) && k > 0;
        assert(last_dot(name@, k));
        if k < i - 1 {
            assert(name@[i - 1] != '.');
        }
        if k > i - 1 {
            assert(name@[k] != '.');
        }
        assert(name@.skip(i - 1).drop_first() =~= name@.subrange(i as int, len as int));
    }
    Some(string_of(&a, i, len))
}

/// The extension of a path, in lower case and with its dot.
pub fn extname_lower(path: &str) -> (r: String)
    ensures
        r@ == extname(path@),
{
    match extension_of(path) {
        Some(e) => {
            proof {
                reveal_strlit(".");
                assert("."@ =~= seq!['.']);
            }
            join2(".", &lowercased(&e))
        },
        None => String::new(),
    }
}

pub open spec fn confinement_text(what: Text, synced: bool) -> Text {
    if synced {
        what + ": path is outside the open workspace folders"@
    } else {
        what + ": workspace folders have not been reported yet"@
    }
}

/// What is told of a path that may not be read.
pub fn confinement_error(what: &str, folders_synced: bool) -> (r: String)
    ensures
        r@ == confinement_text(what@, folders_synced),
{
    if folders_synced {
        join2(what, ": path is outside the open workspace folders")
    } else {
        join2(what, ": workspace folders have not been reported yet")
    }
}

/// Whether a document may be read: `ext` is its extension. None where it may; else what is told.
pub fn doc_refusal(ext: &str) -> (r: Option<String>)
    ensures
        r is None <==> ext@ == ".docx"@ || ext@ == ".xlsx"@ || ext@ == ".xls"@,
        r matches Some(e) ==> e@ == "No viewer for "@ + ext@,
{
    if same(ext, ".docx") || same(ext, ".xlsx") || same(ext, ".xls") {
        None
    } else {
        Some(join2("No viewer for ", ext))
    }
}

/// The document to read, or why it is not read: `place` is where the path leads, where that lies
/// in the workspace.
pub fn doc_read_bytes(place: Option<String>, folders_synced: bool) -> (r: Result<String, String>)
    ensures
        match place {
            None => (r matches Err(e) && e@ == confinement_text("doc:readBytes"@, folders_synced)),
            Some(p) => match r {
                Ok(q) => q@ == p@ && (extname(p@) == ".docx"@ || extname(p@) == ".xlsx"@ || extname(p@) == ".xls"@),
                Err(e) => !(extname(p@) == ".docx"@ || extname(p@) == ".xlsx"@ || extname(p@) == ".xls"@) && e@ == "No viewer for "@ + extname(p@),
            },
        },
{
    match place {
        None => Err(confinement_error("doc:readBytes", folders_synced)),
        Some(p) => {
            let ext = extname_lower(&p);
            match doc_refusal(&ext) {
                None => Ok(p),
                Some(e) => Err(e),
            }
        },
    }
}

// ---- base64 ----

/// The sixty-four digits.
pub open spec fn symbol(n: int) -> char {
    if n < 26 {
        ('A' as int + n) as char
    } else if n < 52 {
        ('a' as int + n - 26) as char
    } else if n < 62 {
        ('0' as int + n - 52) as char
    } else if n == 62 {
        '+'
    } else {
        '/'
    }
}

/// The four digits of three bytes; of fewer bytes, as many digits as hold them, and `=` for the
/// rest.
pub open spec fn quad(b: Seq<u8>) -> Text {
    let b0 = b[0] as int;
    let b1 = if b.len() > 1 { b[1] as int } else { 0 };
    let b2 = if b.len() > 2 { b[2] as int } else { 0 };
    let n = b0 * 65536 + b1 * 256 + b2;
    seq![
        symbol(n / 262144),
        symbol(n / 4096 % 64),
        if b.len() > 1 { symbol(n / 64 % 64) } else { '=' },
        if b.len() > 2 { symbol(n % 64) } else { '=' },
    ]
}

/// The bytes three by three.
pub open spec fn base64(b: Seq<u8>) -> Text
    decreases b.len(),
{
    if b.len() == 0 {
        Seq::empty()
    } else if b.len() <= 3 {
        quad(b)
    } else {
        quad(b.take(3)) + base64(b.skip(3))
    }
}

fn symbol_char(n: u32) -> (r: char)
    requires
        n < 64,
    ensures
        r == symbol(n as int),
{
    if n < 26 {
        ('A' as u8 + n as u8) as char
    } else if n < 52 {
        ('a' as u8 + (n as u8 - 26)) as char
    } else if n < 62 {
        ('0' as u8 + (n as u8 - 52)) as char
    } else if n == 62 {
        '+'
    } else {
        '/'
    }
}

/// The bytes in base sixty-four.
pub fn base64_encode(bytes: &[u8]) -> (r: String)
    ensures
        r@ == base64(bytes@),
{
    let mut out = String::new();
    let n: usize = bytes.len();
    let mut i: usize = 0;
    assert(bytes@.skip(0) =~= bytes@);
    while i < n
        invariant
            i <= n,
            n == bytes@.len(),
            base64(bytes@) == out@ + base64(bytes@.skip(i as int)),
        decreases n - i,
    {
        let ghost rest = bytes@.skip(i as int);
        let ghost before = out@;
        let left: usize = n - i;
        let b0: u32 = bytes[i] as u32;
        let b1: u32 = if left > 1 { bytes[i + 1] as u32 } else { 0 };
        let b2: u32 = if left > 2 { bytes[i + 2] as u32 } else { 0 };
        let v: u32 = b0 * 65536 + b1 * 256 + b2;
        out.push(symbol_char(v / 262144));
        out.push(symbol_char(v / 4096 % 64));
        out.push(if left > 1 { symbol_char(v / 64 % 64) } else { '=' });
        out.push(if left > 2 { symbol_char(v % 64) } else { '=' });
        let step: usize = if left > 3 { 3 } else { left };
        proof {
            let chunk = if left > 3 { rest.take(3) } else { rest };
            assert(chunk[0] == bytes@[i as int]);
            assert(out@ =~= before + quad(chunk));
            assert(rest.skip(step as int) =~= bytes@.skip(i + step));
            if left > 3 {
                assert(before + (quad(chunk) + base64(rest.skip(3))) =~= out@ + base64(bytes@.skip(i + step)));
            } else {
                assert(bytes@.skip(i + step).len() == 0);
                assert(out@ + base64(bytes@.skip(i + step)) =~= out@);
            }
        }
        i = i + step;
    }
    assert(out@ + base64(bytes@.skip(n as int)) =~= out@);
    out
}

/// The value of a digit.
pub open spec fn value(c: char) -> int {
    if 'A' <= c <= 'Z' {
        c as int - 'A' as int
    } else if 'a' <= c <= 'z' {
        c as int - 'a' as int + 26
    } else if '0' <= c <= '9' {
        c as int - '0' as int + 52
    } else if c == '+' {
        62
    } else {
        63
    }
}

/// The bytes that four digits hold.
pub open spec fn unquad(q: Text) -> Seq<u8> {
    let n = value(q[0]) * 262144 + value(q[1]) * 4096 + (if q[2] == '=' { 0 } else { value(q[2]) * 64 }) + (if q[3] == '=' { 0 } else { value(q[3]) });
    if q[2] == '=' {
        seq![(n / 65536) as u8]
    } else if q[3] == '=' {
        seq![(n / 65536) as u8, (n / 256 % 256) as u8]
    } else {
        seq![(n / 65536) as u8, (n / 256 % 256) as u8, (n % 256) as u8]
    }
}

/// The bytes that a string of digits holds, four digits at a time.
pub open spec fn decoded(s: Text) -> Seq<u8>
    decreases s.len(),
{
    if s.len() < 4 {
        Seq::empty()
    } else {
        unquad(s.take(4)) + decoded(s.skip(4))
    }
}

proof fn lemma_symbol(n: int)
    requires
        0 <= n < 64,
    ensures
        value(symbol(n)) == n,
        symbol(n) != '=',
{
}

proof fn lemma_digits(b0: int, b1: int, b2: int)
    requires
        0 <= b0 < 256,
        0 <= b1 < 256,
        0 <= b2 < 256,
    ensures
        ({
            let n = b0 * 65536 + b1 * 256 + b2;
            let (d0, d1, d2, d3) = (n / 262144, n / 4096 % 64, n / 64 % 64, n % 64);
            &&& 0 <= d0 < 64 && 0 <= d1 < 64 && 0 <= d2 < 64 && 0 <= d3 < 64
            &&& n == d0 * 262144 + d1 * 4096 + d2 * 64 + d3
            &&& n / 65536 == b0
            &&& n / 256 % 256 == b1
            &&& n % 256 == b2
            &&& b2 == 0 ==> d3 == 0
            &&& b1 == 0 && b2 == 0 ==> d2 == 0
        }),
{
    let n = b0 * 65536 + b1 * 256 + b2;
    assert(n / 256 == b0 * 256 + b1);
    assert(n / 4096 == n / 64 / 64);
    assert(n / 262144 == n / 4096 / 64);
}

proof fn lemma_quad(b: Seq<u8>)
    requires
        1 <= b.len() <= 3,
    ensures
        quad(b).len() == 4,
        unquad(quad(b)) == b,
{
    let b0 = b[0] as int;
    let b1 = if b.len() > 1 { b[1] as int } else { 0 };
    let b2 = if b.len() > 2 { b[2] as int } else { 0 };
    lemma_digits(b0, b1, b2);
    let n = b0 * 65536 + b1 * 256 + b2;
    let (d0, d1, d2, d3) = (n / 262144, n / 4096 % 64, n / 64 % 64, n % 64);
    lemma_symbol(d0);
    lemma_symbol(d1);
    lemma_symbol(d2);
    lemma_symbol(d3);
    let q = quad(b);
    assert(q[0] == symbol(d0) && q[1] == symbol(d1));
    let m = value(q[0]) * 262144 + value(q[1]) * 4096 + (if q[2] == '=' { 0 } else { value(q[2]) * 64 }) + (if q[3] == '=' { 0 } else { value(q[3]) });
    assert(m == n);
    assert(unquad(q) =~= b);
}

/// What was encoded is decoded again, whatever the bytes.
pub proof fn law_base64_reads_back(b: Seq<u8>)
    ensures
        decoded(base64(b)) == b,
        base64(b).len() == (b.len() + 2) / 3 * 4,
    decreases b.len(),
{
    if b.len() == 0 {
    } else if b.len() <= 3 {
        lemma_quad(b);
        assert(quad(b).take(4) =~= quad(b));
        assert(decoded(quad(b).skip(4)) =~= Seq::<u8>::empty());
        assert(decoded(base64(b)) =~= b);
    } else {
        lemma_quad(b.take(3));
        law_base64_reads_back(b.skip(3));
        let s = base64(b);
        assert(s.take(4) =~= quad(b.take(3)));
        assert(s.skip(4) =~= base64(b.skip(3)));
        assert(b.take(3) + b.skip(3) =~= b);
    }
}

/// A file is named by the last part of its path, whatever folder it lies in.
pub proof fn law_files_are_named_by_their_last_part(dir: Text, name: Text)
    requires
        plain_name(name),
    ensures
        file_name(path_join(dir, name)) == Some(name),
{
    law_joined_names_are_inside(dir, name);
    let v = path_parts(dir).push(Part::Name(name));
    assert(v.last() == Part::Name(name));
}

proof fn lemma_extension_of(p: Text, name: Text, at: int)
    requires
        file_name(p) == Some(name),
        last_dot(name, at),
        at > 0,
    ensures
        extension(p) == Some(name.skip(at).drop_first()),
{
    let n = file_name(p)->0;
    assert(last_dot(n, at) && at > 0);
    let i = choose|i: int| #[trigger] last_dot(n, i) && i > 0;
    assert(last_dot(n, i));
    if i < at {
        assert(n[at] != '.');
    }
    if at < i {
        assert(n[i] != '.');
    }
}

/// A file's extension is what follows the last dot of its name, in lower case and with the dot, and
/// a name whose only dot comes first, or that has none, has no extension.
pub proof fn law_extensions_follow_the_last_dot(dir: Text, stem: Text, ext: Text)
    requires
        !stem.contains('/') && !ext.contains('/') && !ext.contains('.'),
        stem.len() + ext.len() > 1,
    ensures
        stem.len() > 0 && stem + seq!['.'] + ext != seq!['.', '.'] ==> extname(path_join(dir, stem + seq!['.'] + ext)) == seq!['.'] + lowercase(ext),
        stem.len() == 0 ==> extname(path_join(dir, seq!['.'] + ext)).len() == 0,
        ext.len() > 0 ==> extname(path_join(dir, ext)).len() == 0,
{
    let name = stem + seq!['.'] + ext;
    let at = stem.len() as int;
    assert(last_dot(name, at)) by {
        assert(name[at] == '.');
        assert forall|j: int| at < j < name.len() implies #[trigger] name[j] != '.' by {
            assert(name[j] == ext[j - at - 1]);
            assert(ext.contains(ext[j - at - 1]));
        }
    }
    assert(forall|i: int| #[trigger] last_dot(name, i) ==> i == at) by {
        assert forall|i: int| #[trigger] last_dot(name, i) implies i == at by {
            if i < at {
                assert(name[at] != '.');
            }
            if at < i {
                assert(name[i] != '.');
            }
        }
    }
    assert(!name.contains('/')) by {
        if name.contains('/') {
            let i = choose|i: int| 0 <= i < name.len() && name[i] == '/';
            if i < at {
                assert(stem[i] == '/');
            } else if i > at {
                assert(ext[i - at - 1] == '/');
            }
        }
    }
    if stem.len() > 0 && name != seq!['.', '.'] {
        assert(name != seq!['.']) by {
            assert(name.len() > 1);
        }
        assert(plain_name(name));
        law_files_are_named_by_their_last_part(dir, name);
        assert(last_dot(name, at) && at > 0);
        assert(name.skip(at).drop_first() =~= ext);
        let p = path_join(dir, name);
        assert(file_name(p) == Some(name));
        lemma_extension_of(p, name, at);
    }
    if stem.len() == 0 {
        assert(name =~= seq!['.'] + ext);
        assert(name != seq!['.', '.']) by {
            if name == seq!['.', '.'] {
                assert(name[1] == '.');
                assert(ext[0] == '.');
                assert(ext.contains('.'));
            }
        }
        assert(name != seq!['.']) by {
            assert(name.len() > 1);
        }
        assert(plain_name(name));
        law_files_are_named_by_their_last_part(dir, name);
    }
    if ext.len() > 0 {
        assert(ext != seq!['.'] && ext != seq!['.', '.']) by {
            if ext == seq!['.'] || ext == seq!['.', '.'] {
                assert(ext[0] == '.');
            }
        }
        assert(plain_name(ext));
        law_files_are_named_by_their_last_part(dir, ext);
        assert(forall|i: int| !(#[trigger] last_dot(ext, i))) by {
            assert forall|i: int| !(#[trigger] last_dot(ext, i)) by {
                if last_dot(ext, i) {
                    assert(ext[i] == '.');
                }
            }
        }
    }
}

/// Only letters, digits, `+` and `/` are written, and `=` fills up the last four.
pub open spec fn base64_char(c: char) -> bool {
    ('A' <= c <= 'Z') || ('a' <= c <= 'z') || ('0' <= c <= '9') || c == '+' || c == '/' || c == '='
}

/// Bytes are written in the standard alphabet, four characters for every three bytes, and the end is
/// filled up with one sign for each byte that is missing.
pub proof fn law_bytes_are_written_in_the_standard_alphabet(b: Seq<u8>)
    ensures
        base64(b).len() == (b.len() + 2) / 3 * 4,
        forall|i: int| 0 <= i < base64(b).len() ==> base64_char(#[trigger] base64(b)[i]),
        b.len() % 3 == 1 ==> base64(b).last() == '=' && base64(b)[base64(b).len() - 2] == '=',
        b.len() % 3 == 2 ==> base64(b).last() == '=' && base64(b)[base64(b).len() - 2] != '=',
        b.len() % 3 == 0 && b.len() > 0 ==> base64(b).last() != '=',
    decreases b.len(),
{
    if b.len() == 0 {
    } else if b.len() <= 3 {
        lemma_quad_chars(b);
        assert(base64(b) == quad(b));
    } else {
        let rest = b.skip(3);
        lemma_quad_chars(b.take(3));
        law_bytes_are_written_in_the_standard_alphabet(rest);
        lemma_alphabet_step(quad(b.take(3)), base64(rest), base64(b), rest.len(), b.len());
    }
}

proof fn lemma_alphabet_step(front: Text, rest: Text, all: Text, m: nat, n: nat)
    requires
        front.len() == 4,
        all == front + rest,
        m > 0 && n == m + 3,
        rest.len() == (m + 2) / 3 * 4,
        forall|i: int| 0 <= i < 4 ==> base64_char(#[trigger] front[i]),
        forall|i: int| 0 <= i < rest.len() ==> base64_char(#[trigger] rest[i]),
    ensures
        all.len() == (n + 2) / 3 * 4,
        forall|i: int| 0 <= i < all.len() ==> base64_char(#[trigger] all[i]),
        all.last() == rest.last(),
        all[all.len() - 2] == rest[rest.len() - 2],
        n % 3 == m % 3,
{
    assert(rest.len() >= 4);
    assert forall|i: int| 0 <= i < all.len() implies base64_char(#[trigger] all[i]) by {
        if i < 4 {
            assert(all[i] == front[i]);
        } else {
            assert(all[i] == rest[i - 4]);
        }
    }
}

proof fn lemma_quad_chars(b: Seq<u8>)
    requires
        1 <= b.len() <= 3,
    ensures
        quad(b).len() == 4,
        forall|i: int| 0 <= i < 4 ==> base64_char(#[trigger] quad(b)[i]),
        quad(b)[2] == '=' <==> b.len() == 1,
        quad(b)[3] == '=' <==> b.len() < 3,
{
    let b0 = b[0] as int;
    let b1 = if b.len() > 1 { b[1] as int } else { 0 };
    let b2 = if b.len() > 2 { b[2] as int } else { 0 };
    lemma_digits(b0, b1, b2);
    let n = b0 * 65536 + b1 * 256 + b2;
    lemma_symbol(n / 262144);
    lemma_symbol(n / 4096 % 64);
    lemma_symbol(n / 64 % 64);
    lemma_symbol(n % 64);
    assert(base64_char(symbol(n / 262144)) && base64_char(symbol(n / 4096 % 64)));
    assert(base64_char(symbol(n / 64 % 64)) && base64_char(symbol(n % 64)));
}

/// The symbols stand in the standard order: the capitals first, the small letters next, the digits
/// behind them, and the two signs last.
pub proof fn law_symbols_stand_in_order(n: int)
    requires
        0 <= n < 64,
    ensures
        n < 26 ==> symbol(n) as int == 65 + n,
        26 <= n < 52 ==> symbol(n) as int == 97 + (n - 26),
        52 <= n < 62 ==> symbol(n) as int == 48 + (n - 52),
        n == 62 ==> symbol(n) == '+',
        n == 63 ==> symbol(n) == '/',
{
}

/// A refusal names what was refused, and tells a path outside the folders from folders that are not
/// known yet.
pub proof fn law_refusals_name_what_was_refused(what: Text)
    ensures
        begins(confinement_text(what, true), what) && begins(confinement_text(what, false), what),
        ends(confinement_text(what, true), "path is outside the open workspace folders"@),
        ends(confinement_text(what, false), "workspace folders have not been reported yet"@),
{
    reveal_strlit(": path is outside the open workspace folders");
    reveal_strlit("path is outside the open workspace folders");
    reveal_strlit(": workspace folders have not been reported yet");
    reveal_strlit("workspace folders have not been reported yet");
    law_beginnings_and_ends(what, ": path is outside the open workspace folders"@);
    law_beginnings_and_ends(what, ": workspace folders have not been reported yet"@);
    let a = confinement_text(what, true);
    let b = confinement_text(what, false);
    assert(a.skip(a.len() - "path is outside the open workspace folders"@.len()) =~= "path is outside the open workspace folders"@);
    assert(b.skip(b.len() - "workspace folders have not been reported yet"@.len()) =~= "workspace folders have not been reported yet"@);
}

}
