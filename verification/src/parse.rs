//! Reading what programs print: lines, words, numbers and bytes.

use vstd::prelude::*;
use vstd::string::*;

use crate::flow::graph::Text;
use crate::text::{
    chars_of, decimal, is_whitespace, joined, law_joined_pieces_split_back, law_pieces_join_back, lemma_joined_front, split, split_char,
    string_of, texts, whitespace,
};

verus! {

// ---- pieces that hold something ----

pub open spec fn nonempty() -> spec_fn(Text) -> bool {
    |p: Text| p.len() > 0
}

/// The pieces that are not empty.
pub open spec fn filled(v: Seq<Text>) -> Seq<Text> {
    v.filter(nonempty())
}

/// The pieces that are not empty.
pub fn keep_filled(v: &Vec<String>) -> (r: Vec<String>)
    ensures
        texts(r@) == filled(texts(v@)),
{
    let ghost all = texts(v@);
    let mut kept: Vec<String> = Vec::new();
    let mut k: usize = 0;
    proof {
        reveal(Seq::filter);
        assert(all.take(0) =~= Seq::<Text>::empty());
        assert(texts(kept@) =~= filled(all.take(0)));
    }
    while k < v.len()
        invariant
            k <= v@.len(),
            all == texts(v@),
            texts(kept@) == filled(all.take(k as int)),
        decreases v@.len() - k,
    {
        let ghost before = kept@;
        proof {
            reveal(Seq::filter);
            assert(all.take(k + 1).drop_last() =~= all.take(k as int));
            assert(all.take(k + 1).last() == v@[k as int]@);
        }
        if v[k].unicode_len() > 0 {
            kept.push(v[k].clone());
            assert(texts(kept@) =~= texts(before).push(v@[k as int]@));
        }
        k += 1;
    }
    assert(all.take(all.len() as int) =~= all);
    kept
}

/// The lines that are not empty.
pub open spec fn lines(s: Text) -> Seq<Text> {
    filled(split(s, '\n'))
}

/// The lines that are not empty.
pub fn lines_of(s: &str) -> (r: Vec<String>)
    ensures
        texts(r@) == lines(s@),
{
    let all = split_char(s, '\n');
    keep_filled(&all)
}

/// Every blank turned into a space.
pub open spec fn blanked(s: Text) -> Text {
    s.map_values(|c: char| if is_whitespace(c) { ' ' } else { c })
}

/// What stands between blanks.
pub open spec fn words(s: Text) -> Seq<Text> {
    filled(split(blanked(s), ' '))
}

/// What stands between blanks.
pub fn words_of(s: &str) -> (r: Vec<String>)
    ensures
        texts(r@) == words(s@),
{
    let chars = chars_of(s);
    let mut out: Vec<char> = Vec::new();
    let mut i: usize = 0;
    while i < chars.len()
        invariant
            i <= chars@.len(),
            chars@ == s@,
            out@ == blanked(s@).take(i as int),
        decreases chars@.len() - i,
    {
        out.push(if whitespace(chars[i]) { ' ' } else { chars[i] });
        assert(blanked(s@).take(i + 1) =~= blanked(s@).take(i as int).push(blanked(s@)[i as int]));
        i += 1;
    }
    assert(out@ =~= blanked(s@));
    let n: usize = out.len();
    let spaced = string_of(&out, 0, n);
    assert(spaced@ =~= blanked(s@));
    let all = split_char(&spaced, ' ');
    keep_filled(&all)
}

// ---- splitting at a string ----

/// `piece` put in front of the first of the parts.
pub open spec fn fronted(piece: Text, parts: Seq<Text>) -> Seq<Text> {
    parts.update(0, piece + parts[0])
}

/// The pieces of `s` between the occurrences of `sep`, read from the left.
pub open spec fn split_at(s: Text, sep: Text) -> Seq<Text>
    decreases s.len(),
{
    if sep.len() == 0 || s.len() < sep.len() {
        seq![s]
    } else if s.take(sep.len() as int) == sep {
        seq![Seq::<char>::empty()] + split_at(s.skip(sep.len() as int), sep)
    } else {
        fronted(seq![s[0]], split_at(s.drop_first(), sep))
    }
}

pub proof fn lemma_split_at_len(s: Text, sep: Text)
    ensures
        split_at(s, sep).len() >= 1,
    decreases s.len(),
{
    if !(sep.len() == 0 || s.len() < sep.len()) {
        if s.take(sep.len() as int) == sep {
            lemma_split_at_len(s.skip(sep.len() as int), sep);
        } else {
            lemma_split_at_len(s.drop_first(), sep);
        }
    }
}

fn stands_at(s: &Vec<char>, i: usize, sep: &Vec<char>) -> (r: bool)
    requires
        i + sep@.len() <= s@.len(),
    ensures
        r == (s@.skip(i as int).take(sep@.len() as int) == sep@),
{
    let ghost here = s@.skip(i as int).take(sep@.len() as int);
    let n: usize = s.len();
    let mut k: usize = 0;
    while k < sep.len()
        invariant
            k <= sep@.len(),
            n == s@.len(),
            i + sep@.len() <= s@.len(),
            here == s@.skip(i as int).take(sep@.len() as int),
            forall|j: int| 0 <= j < k ==> s@[i + j] == sep@[j],
        decreases sep@.len() - k,
    {
        if s[i + k] != sep[k] {
            assert(here[k as int] != sep@[k as int]);
            return false;
        }
        k += 1;
    }
    assert(here =~= sep@);
    true
}

/// Splits `s` at every occurrence of `sep`, which is not empty.
pub fn split_str(s: &str, sep: &str) -> (r: Vec<String>)
    requires
        sep@.len() > 0,
    ensures
        texts(r@) == split_at(s@, sep@),
{
    let a = chars_of(s);
    let b = chars_of(sep);
    let n: usize = a.len();
    let m: usize = b.len();
    let mut done: Vec<String> = Vec::new();
    let mut from: usize = 0;
    let mut i: usize = 0;
    proof {
        lemma_split_at_len(s@, sep@);
        assert(s@.skip(0) =~= s@);
        assert(s@.subrange(0, 0) + split_at(s@, sep@)[0] =~= split_at(s@, sep@)[0]);
        assert(split_at(s@, sep@) =~= texts(done@) + fronted(s@.subrange(0, 0), split_at(s@.skip(0), sep@)));
    }
    while m <= n - i
        invariant
            from <= i <= n,
            n == a@.len(),
            m == b@.len(),
            m > 0,
            a@ == s@,
            b@ == sep@,
            split_at(s@, sep@) == texts(done@) + fronted(s@.subrange(from as int, i as int), split_at(s@.skip(i as int), sep@)),
        decreases n - i,
    {
        let ghost rest = s@.skip(i as int);
        let ghost piece = s@.subrange(from as int, i as int);
        if stands_at(&a, i, &b) {
            let ghost before = done@;
            done.push(string_of(&a, from, i));
            i = i + m;
            from = i;
            proof {
                let after = split_at(s@.skip(i as int), sep@);
                lemma_split_at_len(s@.skip(i as int), sep@);
                assert(rest.skip(m as int) =~= s@.skip(i as int));
                assert(split_at(rest, sep@) == seq![Seq::<char>::empty()] + after);
                assert(piece + Seq::<char>::empty() =~= piece);
                assert(fronted(piece, split_at(rest, sep@)) =~= seq![piece] + after);
                assert(s@.subrange(i as int, i as int) + after[0] =~= after[0]);
                assert(fronted(s@.subrange(i as int, i as int), after) =~= after);
                assert(texts(done@) =~= texts(before).push(piece));
                assert(texts(before) + (seq![piece] + after) =~= texts(done@) + after);
            }
        } else {
            proof {
                let after = split_at(s@.skip(i + 1), sep@);
                lemma_split_at_len(s@.skip(i + 1), sep@);
                assert(rest.drop_first() =~= s@.skip(i + 1));
                assert(split_at(rest, sep@) == fronted(seq![rest[0]], after));
                assert(s@.subrange(from as int, i + 1) =~= piece + seq![rest[0]]);
                assert(piece + (seq![rest[0]] + after[0]) =~= (piece + seq![rest[0]]) + after[0]);
                assert(fronted(piece, fronted(seq![rest[0]], after)) =~= fronted(s@.subrange(from as int, i + 1), after));
            }
            i += 1;
        }
    }
    let ghost before = done@;
    done.push(string_of(&a, from, n));
    proof {
        let rest = s@.skip(i as int);
        assert(split_at(rest, sep@) == seq![rest]);
        assert(s@.subrange(from as int, i as int) + rest =~= s@.subrange(from as int, n as int));
        assert(fronted(s@.subrange(from as int, i as int), seq![rest]) =~= seq![s@.subrange(from as int, n as int)]);
        assert(texts(done@) =~= texts(before) + seq![s@.subrange(from as int, n as int)]);
    }
    done
}

// ---- numbers ----

pub open spec fn is_digit(c: char) -> bool {
    '0' <= c <= '9'
}

/// The value of a string of digits.
pub open spec fn digits_value(s: Text) -> int
    decreases s.len(),
{
    if s.len() == 0 {
        0
    } else {
        10 * digits_value(s.drop_last()) + (s.last() as int - 48)
    }
}

pub open spec fn all_digits(s: Text) -> bool {
    forall|i: int| 0 <= i < s.len() ==> is_digit(#[trigger] s[i])
}

/// The whole number that `s` is: digits with or without a sign in front, within the range of
/// sixty-four bits.
pub open spec fn whole_number(s: Text) -> Option<int> {
    let signed = s.len() > 0 && (s[0] == '-' || s[0] == '+');
    let body = if signed { s.drop_first() } else { s };
    let value = if signed && s[0] == '-' { -digits_value(body) } else { digits_value(body) };
    if body.len() > 0 && all_digits(body) && i64::MIN <= value <= i64::MAX {
        Some(value)
    } else {
        None
    }
}

/// The whole number that `s` is.
pub fn parse_whole(s: &str) -> (r: Option<i64>)
    ensures
        match r {
            Some(v) => whole_number(s@) == Some(v as int),
            None => whole_number(s@) is None,
        },
{
    let a = chars_of(s);
    let n: usize = a.len();
    if n == 0 {
        return None;
    }
    let signed = a[0] == '-' || a[0] == '+';
    let negative = a[0] == '-';
    let start: usize = if signed { 1 } else { 0 };
    let ghost body = if signed { s@.drop_first() } else { s@ };
    assert(body =~= s@.skip(start as int));
    if start == n {
        return None;
    }
    let mut value: u128 = 0;
    let mut over = false;
    let mut i: usize = start;
    assert(body.take(0) =~= Seq::<char>::empty());
    while i < n
        invariant
            start <= i <= n,
            n == a@.len(),
            a@ == s@,
            body == s@.skip(start as int),
            signed == (s@[0] == '-' || s@[0] == '+'),
            body == if signed { s@.drop_first() } else { s@ },
            start == if signed { 1int } else { 0int },
            n > 0,
            forall|j: int| 0 <= j < i - start ==> is_digit(#[trigger] body[j]),
            value <= 0x1_0000_0000_0000_0000,
            !over ==> value == digits_value(body.take(i - start)),
            over ==> digits_value(body.take(i - start)) > 0x1_0000_0000_0000_0000,
        decreases n - i,
    {
        let c = a[i];
        assert(body[i - start] == c);
        if !(c >= '0' && c <= '9') {
            assert(!is_digit(body[i - start]));
            return None;
        }
        proof {
            assert(body.take(i + 1 - start).drop_last() =~= body.take(i - start));
            assert(body.take(i + 1 - start).last() == c);
        }
        let digit: u128 = c as u128 - '0' as u128;
        if !over {
            let next: u128 = value * 10 + digit;
            if next > 0x1_0000_0000_0000_0000 {
                over = true;
            } else {
                value = next;
            }
        }
        i += 1;
    }
    assert(body.take(n - start) =~= body);
    if over {
        return None;
    }
    if negative {
        if value <= 0x8000_0000_0000_0000 {
            Some((-(value as i128)) as i64)
        } else {
            None
        }
    } else if value <= 0x7fff_ffff_ffff_ffff {
        Some(value as i64)
    } else {
        None
    }
}

// ---- bytes ----

/// How many bytes a character takes in UTF-8.
pub open spec fn utf8_len(c: char) -> int {
    if (c as u32) < 0x80 {
        1
    } else if (c as u32) < 0x800 {
        2
    } else if (c as u32) < 0x10000 {
        3
    } else {
        4
    }
}

/// How many bytes a string takes in UTF-8.
pub open spec fn byte_len(s: Text) -> int
    decreases s.len(),
{
    if s.len() == 0 {
        0
    } else {
        utf8_len(s[0]) + byte_len(s.drop_first())
    }
}

pub fn char_bytes(c: char) -> (r: usize)
    ensures
        r == utf8_len(c),
        1 <= r <= 4,
{
    let n: u32 = c as u32;
    if n < 0x80 {
        1
    } else if n < 0x800 {
        2
    } else if n < 0x10000 {
        3
    } else {
        4
    }
}

/// What follows the first `n` bytes; nothing where a character stands across that place or the
/// string is shorter.
pub open spec fn from_byte(s: Text, n: int) -> Text
    decreases s.len(),
{
    if n == 0 {
        s
    } else if n < 0 || s.len() == 0 {
        Seq::empty()
    } else {
        from_byte(s.drop_first(), n - utf8_len(s[0]))
    }
}

/// What follows the first `n` bytes.
pub fn after_bytes(s: &str, n: usize) -> (r: String)
    ensures
        r@ == from_byte(s@, n as int),
{
    let a = chars_of(s);
    let len: usize = a.len();
    let mut i: usize = 0;
    let mut left: usize = n;
    assert(s@.skip(0) =~= s@);
    while left > 0 && i < len
        invariant
            i <= len,
            len == a@.len(),
            a@ == s@,
            from_byte(s@, n as int) == from_byte(s@.skip(i as int), left as int),
        decreases len - i,
    {
        let k: usize = char_bytes(a[i]);
        assert(s@.skip(i as int)[0] == a@[i as int]);
        assert(s@.skip(i as int).drop_first() =~= s@.skip(i + 1));
        if k > left {
            assert(from_byte(s@.skip(i + 1), left - k) =~= Seq::<char>::empty());
            return String::new();
        }
        left = left - k;
        i += 1;
    }
    if left > 0 {
        return String::new();
    }
    assert(s@.subrange(i as int, len as int) =~= s@.skip(i as int));
    string_of(&a, i, len)
}

/// The longest end of `s` that takes no more than `cap` bytes.
pub open spec fn tail(s: Text, cap: int) -> Text
    decreases s.len(),
{
    if byte_len(s) <= cap || s.len() == 0 {
        s
    } else {
        tail(s.drop_first(), cap)
    }
}

/// Cuts `text` down to its end of at most `cap` bytes; no character is cut in two.
pub fn cap_tail(text: &mut String, cap: usize)
    ensures
        final(text)@ == tail(old(text)@, cap as int),
{
    let a = chars_of(text);
    let n: usize = a.len();
    let ghost s = text@;
    let mut i: usize = n;
    let mut used: usize = 0;
    assert(s.skip(n as int) =~= Seq::<char>::empty());
    while i > 0 && char_bytes(a[i - 1]) <= cap - used
        invariant
            i <= n,
            n == a@.len(),
            a@ == s,
            used <= cap,
            used == byte_len(s.skip(i as int)),
        decreases i,
    {
        assert(s.skip(i - 1)[0] == a@[i - 1]);
        assert(s.skip(i - 1).drop_first() =~= s.skip(i as int));
        used = used + char_bytes(a[i - 1]);
        i -= 1;
    }
    proof {
        if i > 0 {
            assert(s.skip(i - 1)[0] == a@[i - 1]);
            assert(s.skip(i - 1).drop_first() =~= s.skip(i as int));
        }
        lemma_tail(s, cap as int, i as int);
        assert(s.subrange(i as int, n as int) =~= s.skip(i as int));
    }
    *text = string_of(&a, i, n);
}

proof fn lemma_byte_len_positive(s: Text)
    ensures
        byte_len(s) >= 0,
    decreases s.len(),
{
    if s.len() > 0 {
        lemma_byte_len_positive(s.drop_first());
    }
}

/// A longer end takes more bytes.
proof fn lemma_longer_end(s: Text, i: int, k: int)
    requires
        0 <= i <= k <= s.len(),
    ensures
        byte_len(s.skip(i)) >= byte_len(s.skip(k)) + (k - i),
    decreases k - i,
{
    if i < k {
        lemma_longer_end(s, i + 1, k);
        assert(s.skip(i).drop_first() =~= s.skip(i + 1));
    }
}

proof fn lemma_tail(s: Text, cap: int, i: int)
    requires
        0 <= i <= s.len(),
        byte_len(s.skip(i)) <= cap,
        i > 0 ==> byte_len(s.skip(i - 1)) > cap,
    ensures
        tail(s, cap) == s.skip(i),
    decreases i,
{
    assert(s.skip(0) =~= s);
    if i > 0 {
        lemma_longer_end(s, 0, i - 1);
        let rest = s.drop_first();
        assert(rest.skip(i - 1) =~= s.skip(i));
        if i > 1 {
            assert(rest.skip(i - 2) =~= s.skip(i - 1));
        }
        lemma_tail(rest, cap, i - 1);
    }
}

/// What is kept is an end of the string, takes no more bytes than allowed, and could not be
/// longer by a single character.
pub proof fn law_the_longest_end_is_kept(s: Text, cap: int)
    requires
        cap >= 0,
    ensures
        exists|i: int|
            0 <= i <= s.len() && tail(s, cap) == #[trigger] s.skip(i) && byte_len(s.skip(i)) <= cap && (forall|k: int|
                0 <= k < i ==> byte_len(#[trigger] s.skip(k)) > cap),
    decreases s.len(),
{
    if byte_len(s) <= cap || s.len() == 0 {
        assert(s.skip(0) =~= s);
        assert(tail(s, cap) == s.skip(0));
    } else {
        let rest = s.drop_first();
        law_the_longest_end_is_kept(rest, cap);
        let i = choose|i: int|
            0 <= i <= rest.len() && tail(rest, cap) == #[trigger] rest.skip(i) && byte_len(rest.skip(i)) <= cap && (forall|k: int|
                0 <= k < i ==> byte_len(#[trigger] rest.skip(k)) > cap);
        assert(rest.skip(i) =~= s.skip(i + 1));
        assert forall|k: int| 0 <= k < i + 1 implies byte_len(#[trigger] s.skip(k)) > cap by {
            if k == 0 {
                assert(s.skip(0) =~= s);
            } else {
                assert(s.skip(k) =~= rest.skip(k - 1));
            }
        }
    }
}

pub proof fn lemma_all_filled(v: Seq<Text>)
    requires
        forall|k: int| 0 <= k < v.len() ==> (#[trigger] v[k]).len() > 0,
    ensures
        filled(v) == v,
    decreases v.len(),
{
    reveal(Seq::filter);
    if v.len() > 0 {
        let front = v.drop_last();
        assert forall|k: int| 0 <= k < front.len() implies (#[trigger] front[k]).len() > 0 by {
            assert(front[k] == v[k]);
        }
        lemma_all_filled(front);
        assert(v[v.len() - 1].len() > 0);
        assert(filled(v) =~= filled(front).push(v.last()));
        assert(front.push(v.last()) =~= v);
    }
}

/// Lines that were written out, each on a line of its own, are read back, all of them and in order.
pub proof fn law_lines_read_back(v: Seq<Text>)
    requires
        v.len() > 0,
        forall|k: int| 0 <= k < v.len() ==> (#[trigger] v[k]).len() > 0 && !v[k].contains('\n'),
    ensures
        lines(joined(v, seq!['\n'])) == v,
        lines(joined(v, seq!['\n']).push('\n')) == v,
{
    law_joined_pieces_split_back(v, '\n');
    lemma_all_filled(v);
    let s = joined(v, seq!['\n']);
    assert(split(s.push('\n'), '\n') =~= split(s, '\n').push(Seq::empty())) by {
        assert(s.push('\n').drop_last() =~= s);
    }
    reveal(Seq::filter);
    assert(v.push(Seq::empty()).drop_last() =~= v);
    assert(filled(v.push(Seq::empty())) =~= filled(v));
}

/// What is read as a line is a line: it holds something, and it does not go past its end.
pub proof fn law_lines_are_lines(s: Text, k: int)
    requires
        0 <= k < lines(s).len(),
    ensures
        lines(s)[k].len() > 0,
        !lines(s)[k].contains('\n'),
{
    let v = split(s, '\n');
    law_pieces_join_back(s, '\n');
    v.lemma_filter_pred(nonempty(), k);
    assert(lines(s).contains(lines(s)[k]));
    v.lemma_filter_contains_rev(nonempty(), lines(s)[k]);
    let i = choose|i: int| 0 <= i < v.len() && v[i] == lines(s)[k];
    assert(!v[i].contains('\n'));
}

proof fn lemma_blanked_join(v: Seq<Text>, c: char)
    requires
        is_whitespace(c),
        forall|k: int, i: int| 0 <= k < v.len() && 0 <= i < v[k].len() ==> !is_whitespace(#[trigger] v[k][i]),
    ensures
        blanked(joined(v, seq![c])) == joined(v, seq![' ']),
    decreases v.len(),
{
    if v.len() > 1 {
        let front = v.drop_last();
        assert forall|k: int, i: int| 0 <= k < front.len() && 0 <= i < front[k].len() implies !is_whitespace(#[trigger] front[k][i]) by {
            assert(front[k] == v[k]);
            assert(!is_whitespace(v[k][i]));
        }
        lemma_blanked_join(front, c);
        let last = v.last();
        assert(blanked(last) =~= last) by {
            assert forall|i: int| 0 <= i < last.len() implies blanked(last)[i] == last[i] by {
                assert(!is_whitespace(v[v.len() - 1][i]));
            }
        }
        assert(blanked(joined(v, seq![c])) =~= blanked(joined(front, seq![c])) + seq![' '] + blanked(last));
    } else if v.len() == 1 {
        assert(blanked(v[0]) =~= v[0]) by {
            assert forall|i: int| 0 <= i < v[0].len() implies blanked(v[0])[i] == v[0][i] by {
                assert(!is_whitespace(v[0][i]));
            }
        }
    } else {
        assert(blanked(joined(v, seq![c])) =~= joined(v, seq![' ']));
    }
}

/// Words that were written out with one blank between them, of whatever kind, are read back, all of
/// them and in order.
pub proof fn law_words_read_back(v: Seq<Text>, c: char)
    requires
        v.len() > 0,
        is_whitespace(c),
        forall|k: int| 0 <= k < v.len() ==> (#[trigger] v[k]).len() > 0,
        forall|k: int, i: int| 0 <= k < v.len() && 0 <= i < v[k].len() ==> !is_whitespace(#[trigger] v[k][i]),
    ensures
        words(joined(v, seq![c])) == v,
{
    lemma_blanked_join(v, c);
    assert forall|k: int| 0 <= k < v.len() implies !(#[trigger] v[k]).contains(' ') by {
        if v[k].contains(' ') {
            let i = choose|i: int| 0 <= i < v[k].len() && v[k][i] == ' ';
            assert(!is_whitespace(v[k][i]));
        }
    }
    law_joined_pieces_split_back(v, ' ');
    lemma_all_filled(v);
}

proof fn lemma_split_at_front(p: Text, t: Text, sep: Text)
    requires
        sep.len() > 0,
        !p.contains(sep[0]),
    ensures
        split_at(p + t, sep) == fronted(p, split_at(t, sep)),
    decreases p.len(),
{
    lemma_split_at_len(t, sep);
    if p.len() == 0 {
        assert(p + t =~= t);
        assert(fronted(p, split_at(t, sep)) =~= split_at(t, sep)) by {
            assert(p + split_at(t, sep)[0] =~= split_at(t, sep)[0]);
        }
    } else {
        let s = p + t;
        let rest = p.drop_first();
        assert(p[0] != sep[0]) by {
            assert(p.contains(p[0]));
        }
        assert(!rest.contains(sep[0])) by {
            if rest.contains(sep[0]) {
                let i = choose|i: int| 0 <= i < rest.len() && rest[i] == sep[0];
                assert(p[i + 1] == sep[0]);
            }
        }
        lemma_split_at_front(rest, t, sep);
        assert(s.drop_first() =~= rest + t);
        if s.len() < sep.len() {
            assert(split_at(t, sep) =~= seq![t]);
            assert(fronted(p, seq![t]) =~= seq![s]);
        } else {
            assert(s.take(sep.len() as int)[0] == p[0]);
            assert(seq![s[0]] + (rest + split_at(t, sep)[0]) =~= p + split_at(t, sep)[0]);
            assert(split_at(s, sep) =~= fronted(p, split_at(t, sep)));
        }
    }
}

/// Pieces that do not hold the separator's first character come back from the text that they were
/// put together to, all of them and in order.
pub proof fn law_separated_pieces_read_back(v: Seq<Text>, sep: Text)
    requires
        v.len() > 0,
        sep.len() > 0,
        forall|k: int| 0 <= k < v.len() ==> !(#[trigger] v[k]).contains(sep[0]),
    ensures
        split_at(joined(v, sep), sep) == v,
    decreases v.len(),
{
    if v.len() == 1 {
        lemma_split_at_front(v[0], Seq::empty(), sep);
        assert(v[0] + Seq::<char>::empty() =~= v[0]);
        assert(split_at(Seq::empty(), sep) =~= seq![Seq::<char>::empty()]);
        assert(fronted(v[0], seq![Seq::<char>::empty()]) =~= v);
    } else {
        let rest = v.drop_first();
        assert forall|k: int| 0 <= k < rest.len() implies !(#[trigger] rest[k]).contains(sep[0]) by {
            assert(rest[k] == v[k + 1]);
        }
        law_separated_pieces_read_back(rest, sep);
        lemma_joined_front(v, sep);
        let t = sep + joined(rest, sep);
        assert(v[0] + sep + joined(rest, sep) =~= v[0] + t);
        lemma_split_at_front(v[0], t, sep);
        assert(t.take(sep.len() as int) =~= sep);
        assert(t.skip(sep.len() as int) =~= joined(rest, sep));
        assert(split_at(t, sep) =~= seq![Seq::<char>::empty()] + rest);
        assert(v[0] + Seq::<char>::empty() =~= v[0]);
        assert(fronted(v[0], split_at(t, sep)) =~= v);
    }
}

/// A number that was written out is read back, and no digit in front of it is wasted.
pub proof fn law_decimals_read_back(n: nat)
    ensures
        all_digits(decimal(n)),
        digits_value(decimal(n)) == n,
        decimal(n).len() > 0,
        n > 0 ==> decimal(n)[0] != '0',
        n <= i64::MAX ==> whole_number(decimal(n)) == Some(n as int),
        n <= i64::MAX ==> whole_number(seq!['-'] + decimal(n)) == Some(-(n as int)),
        n <= i64::MAX ==> whole_number(seq!['+'] + decimal(n)) == Some(n as int),
    decreases n,
{
    let s = decimal(n);
    if n < 10 {
        assert(s.drop_last() =~= Seq::<char>::empty());
        assert(digits_value(s.drop_last()) == 0);
        assert(s[0] as int == 48 + n);
    } else {
        law_decimals_read_back(n / 10);
        assert(s.drop_last() =~= decimal(n / 10));
        assert(s.last() as int == 48 + n % 10);
        assert(s[0] == decimal(n / 10)[0]);
        assert forall|i: int| 0 <= i < s.len() implies is_digit(#[trigger] s[i]) by {
            if i < s.len() - 1 {
                assert(s[i] == decimal(n / 10)[i]);
            }
        }
    }
    assert(is_digit(s[0]));
    assert((seq!['-'] + s).drop_first() =~= s);
    assert((seq!['+'] + s).drop_first() =~= s);
}

/// Only numbers are read as numbers: a text that holds anything but digits behind its sign, or no
/// digit at all, is none.
pub proof fn law_only_digits_are_numbers(s: Text)
    ensures
        s.len() == 0 ==> whole_number(s) is None,
        s == seq!['-'] || s == seq!['+'] ==> whole_number(s) is None,
        forall|i: int| 0 < i < s.len() && !('0' <= #[trigger] s[i] <= '9') ==> whole_number(s) is None,
        s.len() > 0 && !('0' <= s[0] <= '9') && s[0] != '-' && s[0] != '+' ==> whole_number(s) is None,
{
    assert forall|i: int| 0 < i < s.len() && !('0' <= #[trigger] s[i] <= '9') implies whole_number(s) is None by {
        assert(s.drop_first()[i - 1] == s[i]);
    }
    if s.len() > 0 && !('0' <= s[0] <= '9') && s[0] != '-' && s[0] != '+' {
        assert(!is_digit(s[0]));
    }
}

/// Bytes are counted as they are stored, so a text can be cut behind any of its characters: what is
/// read from behind a part is the rest, untouched.
pub proof fn law_the_rest_follows_its_front(a: Text, b: Text)
    ensures
        byte_len(a + b) == byte_len(a) + byte_len(b),
        from_byte(a + b, byte_len(a)) == b,
    decreases a.len(),
{
    if a.len() == 0 {
        assert(a + b =~= b);
    } else {
        law_the_rest_follows_its_front(a.drop_first(), b);
        lemma_byte_len_positive(a.drop_first());
        assert((a + b).drop_first() =~= a.drop_first() + b);
        assert((a + b)[0] == a[0]);
    }
}

/// A character takes one byte where it is ASCII, and never more than four.
pub proof fn law_ascii_takes_one_byte(c: char)
    ensures
        (c as u32) < 128 <==> utf8_len(c) == 1,
        1 <= utf8_len(c) <= 4,
        128 <= (c as u32) < 2048 <==> utf8_len(c) == 2,
        (c as u32) >= 65536 <==> utf8_len(c) == 4,
{
}

}
