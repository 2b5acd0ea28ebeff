//! Strings as sequences of characters: the handful of operations the rest of the crate builds
//! its messages, names and command lines from.

use vstd::prelude::*;
use vstd::string::*;

use crate::paths::{lemma_split_last, lemma_split_none};

verus! {

/// `String::push` appends one character to the end of the string.
pub assume_specification[ String::push ](s: &mut String, ch: char)
    ensures
        final(s)@ == old(s)@.push(ch),
;

/// A string that may be missing.
pub open spec fn opt_text(s: Option<String>) -> Option<Seq<char>> {
    match s {
        Some(t) => Some(t@),
        None => None,
    }
}

/// A string that may be missing.
pub open spec fn opt_str(s: Option<&str>) -> Option<Seq<char>> {
    match s {
        Some(t) => Some(t@),
        None => None,
    }
}

/// The views of a sequence of strings.
pub open spec fn texts(v: Seq<String>) -> Seq<Seq<char>> {
    v.map_values(|s: String| s@)
}

/// The characters of `s`, in order.
pub fn chars_of(s: &str) -> (r: Vec<char>)
    ensures
        r@ == s@,
{
    let mut v: Vec<char> = Vec::new();
    for c in it: s.chars()
        invariant
            v@ == it.seq().take(it.index() as int),
            it.seq() == s@,
    {
        assert(it.seq().take(it.index() as int + 1) == it.seq().take(it.index() as int).push(c));
        v.push(c);
    }
    assert(s@.take(s@.len() as int) == s@);
    v
}

/// The string whose characters are `chars[from..to]`.
pub fn string_of(chars: &[char], from: usize, to: usize) -> (r: String)
    requires
        from <= to <= chars@.len(),
    ensures
        r@ == chars@.subrange(from as int, to as int),
{
    let mut out = String::new();
    let mut i: usize = from;
    while i < to
        invariant
            from <= i <= to <= chars@.len(),
            out@ == chars@.subrange(from as int, i as int),
        decreases to - i,
    {
        out.push(chars[i]);
        i += 1;
    }
    out
}

/// Whether two strings hold the same characters.
pub fn same(a: &str, b: &str) -> (r: bool)
    ensures
        r == (a@ == b@),
{
    a.to_owned() == b.to_owned()
}

/// `a` followed by `b`.
pub fn join2(a: &str, b: &str) -> (r: String)
    ensures
        r@ == a@ + b@,
{
    let mut out = a.to_owned();
    out.append(b);
    out
}

/// `a`, then `b`, then `c`.
pub fn join3(a: &str, b: &str, c: &str) -> (r: String)
    ensures
        r@ == a@ + b@ + c@,
{
    let mut out = a.to_owned();
    out.append(b);
    out.append(c);
    out
}

// ---- lists of strings ----

/// The same strings again.
pub fn copy_texts(v: &Vec<String>) -> (r: Vec<String>)
    ensures
        texts(r@) == texts(v@),
{
    let mut out: Vec<String> = Vec::new();
    let mut i: usize = 0;
    while i < v.len()
        invariant
            i <= v@.len(),
            out@.len() == i,
            forall|j: int| 0 <= j < i ==> #[trigger] out@[j]@ == v@[j]@,
        decreases v@.len() - i,
    {
        out.push(v[i].clone());
        i += 1;
    }
    assert(texts(out@) =~= texts(v@));
    out
}

/// Whether `s` is one of `v`.
pub fn contains_text(v: &Vec<String>, s: &str) -> (r: bool)
    ensures
        r == texts(v@).contains(s@),
{
    let mut i: usize = 0;
    while i < v.len()
        invariant
            i <= v@.len(),
            forall|j: int| 0 <= j < i ==> #[trigger] texts(v@)[j] != s@,
        decreases v@.len() - i,
    {
        if same(&v[i], s) {
            assert(texts(v@)[i as int] == s@);
            return true;
        }
        i += 1;
    }
    false
}

// ---- decimal numbers ----

/// The character of a digit below ten.
pub open spec fn digit(d: int) -> char {
    (48 + d) as char
}

/// `n` in base ten, without leading zeros.
pub open spec fn decimal(n: nat) -> Seq<char>
    decreases n,
{
    if n < 10 {
        seq![digit(n as int)]
    } else {
        decimal(n / 10).push(digit((n % 10) as int))
    }
}

/// `n` in base ten, with as many zeros in front as bring it to `width` characters.
pub open spec fn padded(n: nat, width: nat) -> Seq<char>
    decreases width,
{
    if width == 0 {
        Seq::empty()
    } else {
        padded(n / 10, (width - 1) as nat).push(digit((n % 10) as int))
    }
}

pub fn digit_char(d: u8) -> (r: char)
    requires
        d < 10,
    ensures
        r == digit(d as int),
{
    (48 + d) as char
}

pub fn decimal_u64(n: u64) -> (r: String)
    ensures
        r@ == decimal(n as nat),
    decreases n,
{
    if n < 10 {
        let mut out = String::new();
        out.push(digit_char(n as u8));
        out
    } else {
        let mut out = decimal_u64(n / 10);
        out.push(digit_char((n % 10) as u8));
        out
    }
}


// ---- order ----

/// `a` comes before `b` in dictionary order, characters compared by their code points.
pub open spec fn lex_less(a: Seq<char>, b: Seq<char>) -> bool
    decreases b.len(),
{
    if b.len() == 0 {
        false
    } else if a.len() == 0 {
        true
    } else if a[0] != b[0] {
        a[0] < b[0]
    } else {
        lex_less(a.drop_first(), b.drop_first())
    }
}

/// Whether `a` comes before `b`.
pub fn less(a: &str, b: &str) -> (r: bool)
    ensures
        r == lex_less(a@, b@),
{
    let x = chars_of(a);
    let y = chars_of(b);
    let mut i: usize = 0;
    assert(x@.skip(0) =~= x@);
    assert(y@.skip(0) =~= y@);
    while i < x.len() && i < y.len() && x[i] == y[i]
        invariant
            i <= x@.len(),
            i <= y@.len(),
            x@ == a@,
            y@ == b@,
            lex_less(a@, b@) == lex_less(x@.skip(i as int), y@.skip(i as int)),
        decreases x@.len() - i,
    {
        assert(x@.skip(i as int).drop_first() =~= x@.skip(i + 1));
        assert(y@.skip(i as int).drop_first() =~= y@.skip(i + 1));
        i += 1;
    }
    if i >= y.len() {
        false
    } else if i >= x.len() {
        true
    } else {
        x[i] < y[i]
    }
}

pub proof fn lemma_lex_append(p: Seq<char>, q: Seq<char>, x: Seq<char>, y: Seq<char>)
    requires
        p.len() == q.len(),
    ensures
        lex_less(p, q) ==> lex_less(p + x, q + y),
        p == q && lex_less(x, y) ==> lex_less(p + x, q + y),
    decreases p.len(),
{
    if p.len() > 0 {
        lemma_lex_append(p.drop_first(), q.drop_first(), x, y);
        assert((p + x).drop_first() =~= p.drop_first() + x);
        assert((q + y).drop_first() =~= q.drop_first() + y);
        assert((p + x)[0] == p[0]);
        assert((q + y)[0] == q[0]);
    } else {
        assert(p + x =~= x);
        assert(q + y =~= y);
    }
}

/// Two different strings stand in one order or the other, never both.
pub proof fn lemma_lex_total(a: Seq<char>, b: Seq<char>)
    ensures
        a != b ==> lex_less(a, b) || lex_less(b, a),
        !(lex_less(a, b) && lex_less(b, a)),
        !lex_less(a, a),
    decreases a.len(),
{
    if a.len() > 0 && b.len() > 0 {
        lemma_lex_total(a.drop_first(), b.drop_first());
        assert(a =~= seq![a[0]] + a.drop_first());
        assert(b =~= seq![b[0]] + b.drop_first());
    }
    if a.len() > 0 {
        lemma_lex_total(a.drop_first(), a.drop_first());
    }
    if a.len() == 0 && b.len() == 0 {
        assert(a =~= b);
    }
}

pub proof fn lemma_lex_transitive(a: Seq<char>, b: Seq<char>, c: Seq<char>)
    requires
        lex_less(a, b),
        lex_less(b, c),
    ensures
        lex_less(a, c),
    decreases a.len(),
{
    if a.len() > 0 && b.len() > 0 && c.len() > 0 && a[0] == b[0] && b[0] == c[0] {
        lemma_lex_transitive(a.drop_first(), b.drop_first(), c.drop_first());
    }
}

/// What is not before something that is not before a string is not before the string; where the
/// ends of such a chain are one, so is what is between.
pub proof fn lemma_lex_chain(a: Seq<char>, b: Seq<char>, c: Seq<char>)
    requires
        !lex_less(b, a),
        !lex_less(c, b),
    ensures
        !lex_less(c, a),
        a == c ==> a == b,
{
    lemma_lex_total(a, b);
    lemma_lex_total(b, c);
    if lex_less(c, a) && lex_less(a, b) {
        lemma_lex_transitive(c, a, b);
    }
}

/// The powers of ten.
pub open spec fn pow10(w: nat) -> nat
    decreases w,
{
    if w == 0 {
        1
    } else {
        10 * pow10((w - 1) as nat)
    }
}

/// Numbers padded to one width stand in the order of their values.
pub proof fn lemma_padded_order(n: nat, m: nat, w: nat)
    requires
        n < m < pow10(w),
    ensures
        lex_less(padded(n, w), padded(m, w)),
    decreases w,
{
    if w > 0 {
        let v = (w - 1) as nat;
        lemma_padded_len(n / 10, v);
        lemma_padded_len(m / 10, v);
        if n / 10 < m / 10 {
            lemma_padded_order(n / 10, m / 10, v);
        }
        let x = seq![digit((n % 10) as int)];
        let y = seq![digit((m % 10) as int)];
        assert(padded(n, w) =~= padded(n / 10, v) + x);
        assert(padded(m, w) =~= padded(m / 10, v) + y);
        if n / 10 == m / 10 {
            assert(digit((n % 10) as int) < digit((m % 10) as int));
            assert(lex_less(x, y));
        }
        lemma_lex_append(padded(n / 10, v), padded(m / 10, v), x, y);
    }
}

pub proof fn lemma_padded_len(n: nat, w: nat)
    ensures
        padded(n, w).len() == w,
    decreases w,
{
    if w > 0 {
        lemma_padded_len(n / 10, (w - 1) as nat);
    }
}

// ---- lower case ----

/// What `str::to_lowercase` makes of a string.
pub uninterp spec fn lowercase(s: Seq<char>) -> Seq<char>;

/// `str::to_lowercase`: the string in lower case by Unicode's tables. Which characters those
/// tables turn into which is not said here, only that the same string always comes out the same.
#[verifier::external_body]
pub(crate) fn lowercased(s: &str) -> (r: String)
    ensures
        r@ == lowercase(s@),
{
    s.to_lowercase()
}

// ---- splitting and joining ----

/// The pieces of `s` between the occurrences of `c`; at least one.
pub open spec fn split(s: Seq<char>, c: char) -> Seq<Seq<char>>
    decreases s.len(),
{
    if s.len() == 0 {
        seq![s]
    } else {
        let before = split(s.drop_last(), c);
        if s.last() == c {
            before.push(Seq::empty())
        } else {
            before.drop_last().push(before.last().push(s.last()))
        }
    }
}

pub proof fn lemma_split_len(s: Seq<char>, c: char)
    ensures
        split(s, c).len() >= 1,
    decreases s.len(),
{
    if s.len() > 0 {
        lemma_split_len(s.drop_last(), c);
    }
}

/// Splits `s` at every `c`.
pub fn split_char(s: &str, c: char) -> (r: Vec<String>)
    ensures
        texts(r@) == split(s@, c),
        r@.len() >= 1,
{
    let chars = chars_of(s);
    let mut done: Vec<String> = Vec::new();
    let mut piece = String::new();
    let mut i: usize = 0;
    assert(s@.take(0) =~= Seq::<char>::empty());
    assert(split(s@.take(0), c) =~= texts(done@).push(piece@));
    while i < chars.len()
        invariant
            i <= chars@.len(),
            chars@ == s@,
            split(s@.take(i as int), c) == texts(done@).push(piece@),
        decreases chars@.len() - i,
    {
        let ghost before = texts(done@).push(piece@);
        assert(s@.take(i + 1).drop_last() =~= s@.take(i as int));
        assert(before.drop_last() =~= texts(done@));
        if chars[i] == c {
            let mut fresh = String::new();
            std::mem::swap(&mut piece, &mut fresh);
            done.push(fresh);
            assert(texts(done@) =~= before);
        } else {
            piece.push(chars[i]);
        }
        i += 1;
    }
    assert(s@.take(s@.len() as int) =~= s@);
    let ghost all = texts(done@).push(piece@);
    done.push(piece);
    assert(texts(done@) =~= all);
    done
}

/// The pieces with `sep` between each two.
pub open spec fn joined(v: Seq<Seq<char>>, sep: Seq<char>) -> Seq<char>
    decreases v.len(),
{
    if v.len() == 0 {
        Seq::empty()
    } else if v.len() == 1 {
        v[0]
    } else {
        joined(v.drop_last(), sep) + sep + v.last()
    }
}

/// Joins the pieces with `sep` between each two.
pub fn join(v: &[String], sep: &str) -> (r: String)
    ensures
        r@ == joined(texts(v@), sep@),
{
    let mut out = String::new();
    let mut i: usize = 0;
    let ghost all = texts(v@);
    assert(all.take(0) =~= Seq::<Seq<char>>::empty());
    while i < v.len()
        invariant
            i <= v@.len(),
            all == texts(v@),
            out@ == joined(all.take(i as int), sep@),
        decreases v@.len() - i,
    {
        assert(all.take(i + 1).drop_last() =~= all.take(i as int));
        assert(all.take(i + 1).last() == v@[i as int]@);
        if i > 0 {
            out.append(sep);
        }
        out.append(&v[i]);
        if i == 0 {
            assert(out@ =~= v@[0]@);
            assert(all.take(1)[0] == v@[0]@);
        }
        i += 1;
    }
    assert(all.take(v@.len() as int) =~= all);
    out
}

// ---- searching ----

/// `s` starts with `prefix`.
pub open spec fn begins(s: Seq<char>, prefix: Seq<char>) -> bool {
    prefix.len() <= s.len() && s.take(prefix.len() as int) == prefix
}

/// `s` ends with `suffix`.
pub open spec fn ends(s: Seq<char>, suffix: Seq<char>) -> bool {
    suffix.len() <= s.len() && s.skip(s.len() - suffix.len()) == suffix
}

/// Whether `s` starts with `prefix`.
pub fn starts_with(s: &str, prefix: &str) -> (r: bool)
    ensures
        r == begins(s@, prefix@),
{
    let a = chars_of(s);
    let b = chars_of(prefix);
    if b.len() > a.len() {
        return false;
    }
    let mut i: usize = 0;
    while i < b.len()
        invariant
            i <= b@.len() <= a@.len(),
            a@ == s@,
            b@ == prefix@,
            forall|j: int| 0 <= j < i ==> a@[j] == #[trigger] b@[j],
        decreases b@.len() - i,
    {
        if a[i] != b[i] {
            assert(s@.take(prefix@.len() as int)[i as int] != prefix@[i as int]);
            return false;
        }
        i += 1;
    }
    assert(s@.take(prefix@.len() as int) =~= prefix@);
    true
}

/// What stands before `suffix` at the end of `s`.
pub fn strip_suffix(s: &str, suffix: &str) -> (r: Option<String>)
    ensures
        match r {
            Some(stem) => ends(s@, suffix@) && stem@ == s@.take(s@.len() - suffix@.len()),
            None => !ends(s@, suffix@),
        },
{
    let a = chars_of(s);
    let b = chars_of(suffix);
    if b.len() > a.len() {
        return None;
    }
    let n: usize = a.len();
    let k: usize = n - b.len();
    let mut i: usize = 0;
    while i < b.len()
        invariant
            i <= b@.len() <= a@.len(),
            n == a@.len(),
            k == n - b@.len(),
            a@ == s@,
            b@ == suffix@,
            forall|j: int| 0 <= j < i ==> a@[k + j] == #[trigger] b@[j],
        decreases b@.len() - i,
    {
        if a[k + i] != b[i] {
            assert(s@.skip(k as int)[i as int] != suffix@[i as int]);
            return None;
        }
        i += 1;
    }
    assert(s@.skip(k as int) =~= suffix@);
    assert(s@.subrange(0, k as int) =~= s@.take(k as int));
    Some(string_of(&a, 0, k))
}

/// Whether `c` occurs in `s`.
pub fn has_char(s: &str, c: char) -> (r: bool)
    ensures
        r == s@.contains(c),
{
    let a = chars_of(s);
    let mut i: usize = 0;
    while i < a.len()
        invariant
            i <= a@.len(),
            a@ == s@,
            forall|j: int| 0 <= j < i ==> #[trigger] a@[j] != c,
        decreases a@.len() - i,
    {
        if a[i] == c {
            assert(s@[i as int] == c);
            return true;
        }
        i += 1;
    }
    false
}

// ---- whitespace ----

/// The characters with the Unicode property `White_Space`.
pub open spec fn is_whitespace(c: char) -> bool {
    ||| '\u{9}' <= c <= '\u{d}'
    ||| c == '\u{20}' || c == '\u{85}' || c == '\u{a0}' || c == '\u{1680}'
    ||| '\u{2000}' <= c <= '\u{200a}'
    ||| c == '\u{2028}' || c == '\u{2029}' || c == '\u{202f}' || c == '\u{205f}' || c == '\u{3000}'
}

pub fn whitespace(c: char) -> (r: bool)
    ensures
        r == is_whitespace(c),
{
    (c >= '\u{9}' && c <= '\u{d}') || c == '\u{20}' || c == '\u{85}' || c == '\u{a0}' || c == '\u{1680}'
        || (c >= '\u{2000}' && c <= '\u{200a}') || c == '\u{2028}' || c == '\u{2029}' || c == '\u{202f}' || c == '\u{205f}'
        || c == '\u{3000}'
}

/// `s` without the whitespace in front.
pub open spec fn trimmed_start(s: Seq<char>) -> Seq<char>
    decreases s.len(),
{
    if s.len() > 0 && is_whitespace(s[0]) {
        trimmed_start(s.drop_first())
    } else {
        s
    }
}

/// `s` without the whitespace at the end.
pub open spec fn trimmed_end(s: Seq<char>) -> Seq<char>
    decreases s.len(),
{
    if s.len() > 0 && is_whitespace(s.last()) {
        trimmed_end(s.drop_last())
    } else {
        s
    }
}

/// `s` without the whitespace at both ends.
pub open spec fn trimmed(s: Seq<char>) -> Seq<char> {
    trimmed_end(trimmed_start(s))
}

proof fn lemma_trimmed_start(s: Seq<char>)
    ensures
        trimmed_start(s).len() > 0 ==> !is_whitespace(trimmed_start(s)[0]),
    decreases s.len(),
{
    if s.len() > 0 && is_whitespace(s[0]) {
        lemma_trimmed_start(s.drop_first());
    }
}

proof fn lemma_trimmed_end(s: Seq<char>)
    ensures
        trimmed_end(s).len() > 0 ==> !is_whitespace(trimmed_end(s).last()) && trimmed_end(s)[0] == s[0],
    decreases s.len(),
{
    if s.len() > 0 && is_whitespace(s.last()) {
        lemma_trimmed_end(s.drop_last());
    }
}

/// Trimming twice is trimming once.
pub proof fn law_trimming_twice_is_trimming_once(s: Seq<char>)
    ensures
        trimmed(trimmed(s)) == trimmed(s),
{
    lemma_trimmed_start(s);
    lemma_trimmed_end(trimmed_start(s));
}

/// `s` without the whitespace at both ends.
pub fn trim(s: &str) -> (r: String)
    ensures
        r@ == trimmed(s@),
{
    let a = chars_of(s);
    let mut i: usize = 0;
    assert(s@.skip(0) =~= s@);
    while i < a.len() && whitespace(a[i])
        invariant
            i <= a@.len(),
            a@ == s@,
            trimmed_start(s@) == trimmed_start(s@.skip(i as int)),
        decreases a@.len() - i,
    {
        assert(s@.skip(i as int).drop_first() =~= s@.skip(i + 1));
        i += 1;
    }
    let ghost rest = s@.skip(i as int);
    assert(trimmed_start(s@) == rest);
    let mut k: usize = a.len();
    assert(s@.subrange(i as int, k as int) =~= rest);
    while k > i && whitespace(a[k - 1])
        invariant
            i <= k <= a@.len(),
            a@ == s@,
            trimmed_end(rest) == trimmed_end(s@.subrange(i as int, k as int)),
        decreases k,
    {
        assert(s@.subrange(i as int, k as int).drop_last() =~= s@.subrange(i as int, k - 1));
        k -= 1;
    }
    string_of(&a, i, k)
}

/// `s` without the whitespace at its end.
pub fn trim_end(s: &str) -> (r: String)
    ensures
        r@ == trimmed_end(s@),
{
    let a = chars_of(s);
    let mut k: usize = a.len();
    assert(s@.subrange(0, k as int) =~= s@);
    while k > 0 && whitespace(a[k - 1])
        invariant
            k <= a@.len(),
            a@ == s@,
            trimmed_end(s@) == trimmed_end(s@.subrange(0, k as int)),
        decreases k,
    {
        assert(s@.subrange(0, k as int).drop_last() =~= s@.subrange(0, k - 1));
        k -= 1;
    }
    string_of(&a, 0, k)
}

/// Splitting takes the separators out and nothing else: no piece holds one, and the pieces put
/// together with it between them are the text again.
pub proof fn law_pieces_join_back(s: Seq<char>, c: char)
    ensures
        joined(split(s, c), seq![c]) == s,
        forall|k: int| 0 <= k < split(s, c).len() ==> !(#[trigger] split(s, c)[k]).contains(c),
    decreases s.len(),
{
    if s.len() > 0 {
        let front = s.drop_last();
        let before = split(front, c);
        law_pieces_join_back(front, c);
        lemma_split_len(front, c);
        let all = split(s, c);
        if s.last() == c {
            assert(all.drop_last() =~= before);
            assert(joined(all, seq![c]) =~= s);
        } else {
            assert(all.drop_last() =~= before.drop_last());
            if before.len() == 1 {
                assert(joined(all, seq![c]) =~= s);
            } else {
                assert(joined(before, seq![c]) == joined(before.drop_last(), seq![c]) + seq![c] + before.last());
                assert(all.last() == before.last().push(s.last()));
                assert(joined(all, seq![c]) == joined(before.drop_last(), seq![c]) + seq![c] + all.last());
                assert(joined(all, seq![c]) =~= front.push(s.last()));
                assert(joined(all, seq![c]) =~= s);
            }
            assert forall|k: int| 0 <= k < all.len() implies !(#[trigger] all[k]).contains(c) by {
                if k == all.len() - 1 {
                    assert(!before[before.len() - 1].contains(c));
                    let piece = before.last().push(s.last());
                    assert(all[k] == piece);
                    if piece.contains(c) {
                        let i = choose|i: int| 0 <= i < piece.len() && piece[i] == c;
                        assert(before.last()[i] == c);
                    }
                } else {
                    assert(all[k] == before[k]);
                }
            }
        }
    }
}

/// Pieces that hold no separator come back from the text that they were put together to.
pub proof fn law_joined_pieces_split_back(v: Seq<Seq<char>>, c: char)
    requires
        v.len() > 0,
        forall|k: int| 0 <= k < v.len() ==> !(#[trigger] v[k]).contains(c),
    ensures
        split(joined(v, seq![c]), c) == v,
    decreases v.len(),
{
    if v.len() == 1 {
        lemma_split_none(v[0], c);
        assert(seq![v[0]] =~= v);
    } else {
        let front = v.drop_last();
        assert forall|k: int| 0 <= k < front.len() implies !(#[trigger] front[k]).contains(c) by {
            assert(front[k] == v[k]);
        }
        law_joined_pieces_split_back(front, c);
        lemma_split_last(joined(front, seq![c]), v.last(), c);
        assert(joined(v, seq![c]) =~= joined(front, seq![c]).push(c) + v.last());
        assert(front.push(v.last()) =~= v);
    }
}

/// A list put together begins with its first piece: the order of the pieces is kept.
pub proof fn lemma_joined_front(v: Seq<Seq<char>>, sep: Seq<char>)
    requires
        v.len() > 1,
    ensures
        joined(v, sep) == v[0] + sep + joined(v.drop_first(), sep),
    decreases v.len(),
{
    if v.len() == 2 {
        assert(v.drop_last() =~= seq![v[0]]);
        assert(v.drop_first() =~= seq![v[1]]);
        assert(joined(v.drop_last(), sep) == v[0]);
        assert(joined(v.drop_first(), sep) == v[1]);
    } else {
        lemma_joined_front(v.drop_last(), sep);
        assert(v.drop_last().drop_first() =~= v.drop_first().drop_last());
        assert(joined(v, sep) =~= v[0] + sep + joined(v.drop_first(), sep));
    }
}

/// Every character of the text is blank.
pub open spec fn blank(s: Seq<char>) -> bool {
    forall|i: int| 0 <= i < s.len() ==> is_whitespace(#[trigger] s[i])
}

proof fn lemma_start_cut(s: Seq<char>)
    ensures
        trimmed_start(s).len() <= s.len(),
        s.skip(s.len() - trimmed_start(s).len()) == trimmed_start(s),
        blank(s.take(s.len() - trimmed_start(s).len())),
    decreases s.len(),
{
    if s.len() > 0 && is_whitespace(s[0]) {
        let rest = s.drop_first();
        lemma_start_cut(rest);
        let cut = s.len() - trimmed_start(s).len();
        assert(s.skip(cut) =~= rest.skip(cut - 1));
        assert forall|i: int| 0 <= i < s.take(cut).len() implies is_whitespace(#[trigger] s.take(cut)[i]) by {
            if i > 0 {
                assert(rest.take(cut - 1)[i - 1] == s.take(cut)[i]);
            }
        }
    } else {
        assert(s.skip(0) =~= s);
    }
}

proof fn lemma_end_cut(s: Seq<char>)
    ensures
        trimmed_end(s).len() <= s.len(),
        s.take(trimmed_end(s).len() as int) == trimmed_end(s),
        blank(s.skip(trimmed_end(s).len() as int)),
    decreases s.len(),
{
    if s.len() > 0 && is_whitespace(s.last()) {
        let rest = s.drop_last();
        lemma_end_cut(rest);
        let kept = trimmed_end(s).len() as int;
        assert(s.take(kept) =~= rest.take(kept));
        assert forall|i: int| 0 <= i < s.skip(kept).len() implies is_whitespace(#[trigger] s.skip(kept)[i]) by {
            if i < rest.skip(kept).len() {
                assert(rest.skip(kept)[i] == s.skip(kept)[i]);
            }
        }
    } else {
        assert(s.take(s.len() as int) =~= s);
    }
}

/// Trimming takes the blanks off both ends and nothing else: what was cut off was blank, what is
/// left neither begins nor ends with a blank, and a text without blanks at its ends stays whole.
pub proof fn law_only_blanks_are_trimmed(s: Seq<char>)
    ensures
        exists|a: int, b: int|
            0 <= a <= b <= s.len() && #[trigger] s.subrange(a, b) == trimmed(s) && blank(s.take(a)) && blank(s.skip(b)),
        trimmed(s).len() > 0 ==> !is_whitespace(trimmed(s)[0]) && !is_whitespace(trimmed(s).last()),
        s.len() > 0 && !is_whitespace(s[0]) && !is_whitespace(s.last()) ==> trimmed(s) == s,
        blank(s) ==> trimmed(s).len() == 0,
{
    lemma_start_cut(s);
    let mid = trimmed_start(s);
    lemma_end_cut(mid);
    lemma_trimmed_start(s);
    lemma_trimmed_end(mid);
    let a = s.len() - mid.len();
    let b = a + trimmed(s).len();
    assert(s.subrange(a, b) =~= trimmed(s)) by {
        assert(mid.take(trimmed(s).len() as int) == trimmed(s));
        assert forall|i: int| 0 <= i < b - a implies s.subrange(a, b)[i] == trimmed(s)[i] by {
            assert(s.skip(a)[i] == mid[i]);
            assert(mid.take(trimmed(s).len() as int)[i] == mid[i]);
        }
    }
    assert forall|i: int| 0 <= i < s.skip(b).len() implies is_whitespace(#[trigger] s.skip(b)[i]) by {
        assert(s.skip(a)[trimmed(s).len() + i] == s[b + i]);
        assert(mid.skip(trimmed(s).len() as int)[i] == mid[trimmed(s).len() + i]);
    }
    if blank(s) && trimmed(s).len() > 0 {
        assert(trimmed(s)[0] == s.subrange(a, b)[0]);
        assert(is_whitespace(s[a]));
    }
}

/// Blanks are blank: the space, the tab and the ends of lines are, and no character that prints is.
pub proof fn law_what_prints_is_not_blank(c: char)
    ensures
        c == ' ' || c == '\t' || c == '\n' || c == '\r' ==> is_whitespace(c),
        '!' <= c <= '~' ==> !is_whitespace(c),
{
}

/// Texts are ordered by the first character in which they differ, and a text stands before every
/// longer one that it begins.
pub proof fn law_the_first_difference_decides(p: Seq<char>, x: char, a: Seq<char>, y: char, b: Seq<char>)
    ensures
        x < y ==> lex_less(p + seq![x] + a, p + seq![y] + b),
        lex_less(p, p + seq![x] + a),
        !lex_less(p + seq![x] + a, p),
{
    let s = p + seq![x] + a;
    lemma_lex_total(p, p);
    if x < y {
        assert((seq![x] + a)[0] == x && (seq![y] + b)[0] == y);
        assert(lex_less(seq![x] + a, seq![y] + b));
        lemma_lex_append(p, p, seq![x] + a, seq![y] + b);
        assert(p + (seq![x] + a) =~= s);
        assert(p + (seq![y] + b) =~= p + seq![y] + b);
    }
    assert((seq![x] + a).len() > 0);
    assert(lex_less(Seq::<char>::empty(), seq![x] + a));
    lemma_lex_append(p, p, Seq::empty(), seq![x] + a);
    assert(p + Seq::<char>::empty() =~= p);
    assert(p + (seq![x] + a) =~= s);
    lemma_lex_total(p, s);
}

/// A text begins and ends with what it was put together from, and with nothing that differs.
pub proof fn law_beginnings_and_ends(a: Seq<char>, b: Seq<char>)
    ensures
        begins(a + b, a),
        ends(a + b, b),
        forall|p: Seq<char>| p.len() == a.len() && #[trigger] begins(a + b, p) ==> p == a,
        forall|p: Seq<char>| p.len() == b.len() && #[trigger] ends(a + b, p) ==> p == b,
{
    assert((a + b).take(a.len() as int) =~= a);
    assert((a + b).skip((a + b).len() - b.len()) =~= b);
}

}
