//! Names a run goes by: its id, and the log file of each of its nodes.

use vstd::prelude::*;
use vstd::seq_lib::*;
use vstd::string::*;

use crate::flow::graph::Text;
use crate::text::{chars_of, contains_text, decimal, decimal_u64, digit, join3, lemma_lex_append, lex_less, texts};

verus! {

// ---- base 36 ----

/// The character of a digit below thirty-six.
pub open spec fn digit36(d: int) -> char {
    if d < 10 {
        (48 + d) as char
    } else {
        (87 + d) as char
    }
}

/// `n` in base thirty-six, without leading zeros.
pub open spec fn base36(n: nat) -> Text
    decreases n,
{
    if n < 36 {
        seq![digit36(n as int)]
    } else {
        base36(n / 36).push(digit36((n % 36) as int))
    }
}

/// `n` in base thirty-six.
pub fn to_base36(n: u128) -> (r: String)
    ensures
        r@ == base36(n as nat),
    decreases n,
{
    let d: u8 = (n % 36) as u8;
    let c: char = if d < 10 { (48 + d) as char } else { (87 + d) as char };
    let mut out = if n < 36 { String::new() } else { to_base36(n / 36) };
    out.push(c);
    assert(out@ =~= base36(n as nat));
    out
}

/// Ids minted from times of the same number of digits sort chronologically.
pub proof fn law_base36_sorts_by_value(n: nat, m: nat)
    requires
        n < m,
        base36(n).len() == base36(m).len(),
    ensures
        lex_less(base36(n), base36(m)),
    decreases m,
{
    let x = seq![digit36((n % 36) as int)];
    let y = seq![digit36((m % 36) as int)];
    lemma_base36_len(n);
    lemma_base36_len(m);
    if n < 36 {
        assert(m < 36) by {
            if m >= 36 {
                lemma_base36_len(m / 36);
            }
        }
        assert(base36(n)[0] < base36(m)[0]);
    } else {
        if m < 36 {
            lemma_base36_len(n / 36);
        }
        assert(base36(n) =~= base36(n / 36) + x);
        assert(base36(m) =~= base36(m / 36) + y);
        if n / 36 < m / 36 {
            law_base36_sorts_by_value(n / 36, m / 36);
        } else {
            assert(n % 36 < m % 36);
            assert(lex_less(x, y));
        }
        lemma_lex_append(base36(n / 36), base36(m / 36), x, y);
    }
}

proof fn lemma_base36_len(n: nat)
    ensures
        base36(n).len() >= 1,
    decreases n,
{
    if n >= 36 {
        lemma_base36_len(n / 36);
    }
}

// ---- run ids ----

/// The `k`th id to try: the base itself, then the base with `-2`, `-3` and so on.
pub open spec fn candidate(base: Text, k: nat) -> Text {
    if k <= 1 {
        base
    } else {
        base + seq!['-'] + decimal(k)
    }
}

/// `id` is the first candidate that is not taken.
pub open spec fn is_fresh_id(taken: Seq<Text>, base: Text, id: Text) -> bool {
    exists|k: nat|
        k >= 1 && id == #[trigger] candidate(base, k) && !taken.contains(id)
            && forall|j: nat| 1 <= j < k ==> taken.contains(#[trigger] candidate(base, j))
}

/// Numbers that are written alike are the same.
pub proof fn lemma_decimal_injective(a: nat, b: nat)
    ensures
        decimal(a) == decimal(b) ==> a == b,
        decimal(a).len() >= 1,
    decreases a,
{
    if a >= 10 && b >= 10 {
        lemma_decimal_injective(a / 10, b / 10);
        if decimal(a) == decimal(b) {
            assert(decimal(a).drop_last() =~= decimal(a / 10));
            assert(decimal(b).drop_last() =~= decimal(b / 10));
            assert(decimal(a).last() == digit((a % 10) as int));
            assert(decimal(b).last() == digit((b % 10) as int));
        }
    } else if a >= 10 {
        lemma_decimal_injective(a / 10, 0);
        assert(decimal(a).len() >= 2);
    } else if b >= 10 {
        lemma_decimal_len(b / 10);
        assert(decimal(b).len() >= 2);
    } else {
        assert(decimal(a)[0] == digit(a as int));
        assert(decimal(b)[0] == digit(b as int));
    }
}

proof fn lemma_decimal_len(a: nat)
    ensures
        decimal(a).len() >= 1,
    decreases a,
{
    if a >= 10 {
        lemma_decimal_len(a / 10);
    }
}

proof fn lemma_candidates_differ(base: Text, j: nat, k: nat)
    requires
        1 <= j < k,
    ensures
        candidate(base, j) != candidate(base, k),
{
    lemma_decimal_len(k);
    if j == 1 {
        assert(candidate(base, k).len() > base.len());
    } else {
        lemma_decimal_injective(j, k);
        let p = base + seq!['-'];
        if candidate(base, j) == candidate(base, k) {
            assert(decimal(j) =~= candidate(base, j).skip(p.len() as int));
            assert(decimal(k) =~= candidate(base, k).skip(p.len() as int));
        }
    }
}

/// As long as every candidate tried so far is taken, no more were tried than are taken.
proof fn lemma_tries(taken: Seq<Text>, base: Text, k: nat)
    requires
        forall|j: nat| 1 <= j <= k ==> taken.contains(#[trigger] candidate(base, j)),
    ensures
        k <= taken.len(),
{
    let tried = Seq::new(k, |i: int| candidate(base, (i + 1) as nat));
    assert forall|a: int, b: int| 0 <= a < b < tried.len() implies tried[a] != tried[b] by {
        lemma_candidates_differ(base, (a + 1) as nat, (b + 1) as nat);
    }
    tried.unique_seq_to_set();
    assert(tried.to_set().subset_of(taken.to_set())) by {
        assert forall|x: Text| tried.to_set().contains(x) implies #[trigger] taken.to_set().contains(x) by {
            let i = choose|i: int| 0 <= i < tried.len() && tried[i] == x;
            assert(taken.contains(candidate(base, (i + 1) as nat)));
        }
    }
    seq_to_set_is_finite(taken);
    vstd::set_lib::lemma_len_subset(tried.to_set(), taken.to_set());
    taken.lemma_cardinality_of_set();
}

/// The first of `base`, `base-2`, `base-3` and so on that is not taken.
pub fn first_free(taken: &Vec<String>, base: String) -> (r: String)
    requires
        taken@.len() < u64::MAX - 1,
    ensures
        is_fresh_id(texts(taken@), base@, r@),
{
    let mut id = base.clone();
    let mut k: u64 = 1;
    while contains_text(taken, &id)
        invariant
            taken@.len() < u64::MAX - 1,
            1 <= k <= taken@.len() + 1,
            id@ == candidate(base@, k as nat),
            forall|j: nat| 1 <= j < k ==> texts(taken@).contains(#[trigger] candidate(base@, j)),
        decreases taken@.len() + 1 - k,
    {
        proof {
            assert forall|j: nat| 1 <= j <= k implies texts(taken@).contains(#[trigger] candidate(base@, j)) by {}
            lemma_tries(texts(taken@), base@, k as nat);
        }
        k += 1;
        let n = decimal_u64(k);
        id = join3(&base, "-", &n);
        proof {
            reveal_strlit("-");
            assert("-"@ =~= seq!['-']);
        }
    }
    assert(id@ == candidate(base@, k as nat));
    id
}

/// An id for a run started at `millis`: the time in base thirty-six, with a counter where that
/// is taken.
pub fn new_run_id(taken: &Vec<String>, millis: u128) -> (r: String)
    requires
        taken@.len() < u64::MAX - 1,
    ensures
        is_fresh_id(texts(taken@), base36(millis as nat), r@),
{
    first_free(taken, to_base36(millis))
}

/// A new run never takes the id of another.
pub proof fn law_run_ids_are_fresh(taken: Seq<Text>, base: Text, id: Text)
    requires
        is_fresh_id(taken, base, id),
    ensures
        !taken.contains(id),
{
}

// ---- log names ----

pub open spec fn is_ascii_alphanumeric(c: char) -> bool {
    ('a' <= c <= 'z') || ('A' <= c <= 'Z') || ('0' <= c <= '9')
}

/// A character that may stand in a log's name.
pub open spec fn log_safe(c: char) -> bool {
    is_ascii_alphanumeric(c) || c == '.' || c == '_' || c == '-'
}

/// `s` with every character that is not safe in a log's name replaced by `_`.
pub open spec fn sanitized(s: Text) -> Text {
    s.map_values(|c: char| if log_safe(c) { c } else { '_' })
}

/// The log of the `i`th node: its position from one, its id made safe, `.log`.
pub open spec fn log_text(node_id: Text, i: nat) -> Text {
    decimal(i + 1) + seq!['-'] + sanitized(node_id) + seq!['.', 'l', 'o', 'g']
}

/// The file name of a node's log. Nothing but letters, digits, `.`, `_` and `-` survives of the
/// id; the leading position keeps two ids that come out alike from sharing a log.
pub fn log_name(node_id: &str, i: usize) -> (r: String)
    requires
        i < usize::MAX,
    ensures
        r@ == log_text(node_id@, i as nat),
{
    let chars = chars_of(node_id);
    let mut out = decimal_u64((i + 1) as u64);
    out.push('-');
    let ghost head = out@;
    let mut k: usize = 0;
    while k < chars.len()
        invariant
            k <= chars@.len(),
            chars@ == node_id@,
            out@ == head + sanitized(node_id@).take(k as int),
        decreases chars@.len() - k,
    {
        let c = chars[k];
        let safe = (c >= 'a' && c <= 'z') || (c >= 'A' && c <= 'Z') || (c >= '0' && c <= '9') || c == '.' || c == '_' || c == '-';
        out.push(if safe { c } else { '_' });
        assert(sanitized(node_id@).take(k + 1) =~= sanitized(node_id@).take(k as int).push(sanitized(node_id@)[k as int]));
        k += 1;
    }
    assert(sanitized(node_id@).take(chars@.len() as int) =~= sanitized(node_id@));
    out.append(".log");
    proof {
        reveal_strlit(".log");
        assert(".log"@ =~= seq!['.', 'l', 'o', 'g']);
        assert(out@ =~= log_text(node_id@, i as nat));
    }
    out
}

proof fn lemma_decimal_digits(n: nat)
    ensures
        forall|i: int| 0 <= i < decimal(n).len() ==> '0' <= #[trigger] decimal(n)[i] <= '9',
    decreases n,
{
    if n >= 10 {
        lemma_decimal_digits(n / 10);
        assert forall|i: int| 0 <= i < decimal(n).len() implies '0' <= #[trigger] decimal(n)[i] <= '9' by {
            if i < decimal(n / 10).len() {
                assert(decimal(n)[i] == decimal(n / 10)[i]);
            }
        }
    }
}

/// No separator survives in a log's name.
pub proof fn law_log_names_hold_no_separator(node_id: Text, i: nat, k: int)
    requires
        0 <= k < log_text(node_id, i).len(),
    ensures
        log_safe(log_text(node_id, i)[k]),
        log_text(node_id, i)[k] != '/',
        log_text(node_id, i)[k] != '\\',
{
    lemma_decimal_digits(i + 1);
}

/// Two nodes of a run never share a log, whatever their ids.
pub proof fn law_log_names_differ(a: Text, i: nat, b: Text, j: nat)
    requires
        i != j,
    ensures
        log_text(a, i) != log_text(b, j),
{
    let p = decimal(i + 1);
    let q = decimal(j + 1);
    lemma_decimal_digits(i + 1);
    lemma_decimal_digits(j + 1);
    lemma_decimal_injective(i + 1, j + 1);
    if log_text(a, i) == log_text(b, j) {
        let s = log_text(a, i);
        assert(s[p.len() as int] == '-');
        assert(log_text(b, j)[q.len() as int] == '-');
        if p.len() < q.len() {
            assert(log_text(b, j)[p.len() as int] == q[p.len() as int]);
        } else if q.len() < p.len() {
            assert(s[q.len() as int] == p[q.len() as int]);
        } else {
            assert(p =~= s.take(p.len() as int));
            assert(q =~= log_text(b, j).take(q.len() as int));
        }
    }
}

/// The number that a digit of base 36 stands for.
pub open spec fn value36(c: char) -> int {
    if '0' <= c <= '9' {
        c as int - '0' as int
    } else {
        c as int - 'a' as int + 10
    }
}

/// The number that digits of base 36 stand for.
pub open spec fn read36(s: Text) -> int
    decreases s.len(),
{
    if s.len() == 0 {
        0
    } else {
        36 * read36(s.drop_last()) + value36(s.last())
    }
}

/// A number in base 36 is read back, is written in digits and small letters alone, and wastes no
/// digit.
pub proof fn law_base36_reads_back(n: nat)
    ensures
        read36(base36(n)) == n,
        base36(n).len() > 0,
        forall|i: int| 0 <= i < base36(n).len() ==> ('0' <= #[trigger] base36(n)[i] <= '9' || 'a' <= base36(n)[i] <= 'z'),
        n > 0 ==> base36(n)[0] != '0',
    decreases n,
{
    let s = base36(n);
    if n < 36 {
        assert(s.drop_last() =~= Seq::<char>::empty());
        assert(read36(s.drop_last()) == 0);
    } else {
        law_base36_reads_back(n / 36);
        assert(s.drop_last() =~= base36(n / 36));
        assert(s[0] == base36(n / 36)[0]);
        assert forall|i: int| 0 <= i < s.len() implies ('0' <= #[trigger] s[i] <= '9' || 'a' <= s[i] <= 'z') by {
            if i < s.len() - 1 {
                assert(s[i] == base36(n / 36)[i]);
            }
        }
    }
}

/// A name that is free is taken as it is, and one that is not is told apart by the first number that
/// is free, from two on.
pub proof fn law_free_names_are_kept(taken: Seq<Text>, base: Text, id: Text)
    requires
        is_fresh_id(taken, base, id),
    ensures
        !taken.contains(base) ==> id == base,
        taken.contains(base) && !taken.contains(base + "-2"@) ==> id == base + "-2"@,
        taken.contains(base) && taken.contains(base + "-2"@) && !taken.contains(base + "-3"@) ==> id == base + "-3"@,
{
    reveal_strlit("-2");
    reveal_strlit("-3");
    assert(candidate(base, 1) == base);
    assert(candidate(base, 2) =~= base + "-2"@) by {
        assert(decimal(2) =~= seq!['2']);
    }
    assert(candidate(base, 3) =~= base + "-3"@) by {
        assert(decimal(3) =~= seq!['3']);
    }
    let k = choose|k: nat|
        k >= 1 && id == #[trigger] candidate(base, k) && !taken.contains(id) && forall|j: nat|
            1 <= j < k ==> taken.contains(#[trigger] candidate(base, j));
    if !taken.contains(base) && k > 1 {
        assert(taken.contains(candidate(base, 1)));
    }
    if taken.contains(base) && !taken.contains(base + "-2"@) && k > 2 {
        assert(taken.contains(candidate(base, 2)));
    }
    if taken.contains(base) && taken.contains(base + "-2"@) && !taken.contains(base + "-3"@) && k > 3 {
        assert(taken.contains(candidate(base, 3)));
    }
}

/// A log's name keeps what is safe of its node's id, letters, digits, dots, dashes and underscores, and
/// replaces every other character by one underscore.
pub proof fn law_log_names_keep_what_is_safe(id: Text, i: int)
    requires
        0 <= i < id.len(),
    ensures
        sanitized(id).len() == id.len(),
        ('a' <= id[i] <= 'z') || ('A' <= id[i] <= 'Z') || ('0' <= id[i] <= '9') || id[i] == '.' || id[i] == '_' || id[i] == '-' ==> sanitized(id)[i]
            == id[i],
        id[i] == '/' || id[i] == '\\' || id[i] == ' ' || id[i] == ':' || id[i] == '\n' || id[i] as u32 >= 128 ==> sanitized(id)[i] == '_',
{
}

/// A log is numbered from one, by the place of its node, and ends as a log does.
pub proof fn law_logs_are_numbered(id: Text, i: nat)
    ensures
        log_text(id, i) == decimal(i + 1) + "-"@ + sanitized(id) + ".log"@,
{
    reveal_strlit("-");
    reveal_strlit(".log");
    assert("-"@ =~= seq!['-']);
    assert(".log"@ =~= seq!['.', 'l', 'o', 'g']);
}

}
