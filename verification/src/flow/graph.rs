//! The order a flow's nodes can run in: its layers, walked generation by generation.

use vstd::prelude::*;
use vstd::seq_lib::*;

use crate::text::{same, texts};

verus! {

pub type Text = Seq<char>;

/// The views of a sequence of string pairs.
pub open spec fn pairs(v: Seq<(String, String)>) -> Seq<(Text, Text)> {
    v.map_values(|e: (String, String)| (e.0@, e.1@))
}

/// The views of a sequence of sequences of strings.
pub open spec fn rows(v: Seq<Vec<String>>) -> Seq<Seq<Text>> {
    v.map_values(|row: Vec<String>| texts(row@))
}

/// The edges with both ends among `ids`: a dangling edge constrains nothing.
pub open spec fn live(ids: Seq<Text>, edges: Seq<(Text, Text)>) -> Seq<(Text, Text)> {
    edges.filter(|e: (Text, Text)| ids.contains(e.0) && ids.contains(e.1))
}

/// Every edge into `d` comes from a node of `placed`.
pub open spec fn ready(es: Seq<(Text, Text)>, placed: Set<Text>, d: Text) -> bool {
    forall|i: int| 0 <= i < es.len() && (#[trigger] es[i]).1 == d ==> placed.contains(es[i].0)
}

/// What `id` releases when it is walked: the targets of its edges `rest`, each at the last of
/// the edges that lead to it, as far as all their sources are in `placed`.
pub open spec fn released(es: Seq<(Text, Text)>, placed: Set<Text>, id: Text, rest: Seq<(Text, Text)>) -> Seq<Text>
    decreases rest.len(),
{
    if rest.len() == 0 {
        Seq::empty()
    } else {
        let tail = released(es, placed, id, rest.drop_first());
        let e = rest[0];
        if e.0 == id && !rest.drop_first().contains(e) && ready(es, placed, e.1) {
            seq![e.1] + tail
        } else {
            tail
        }
    }
}

/// What the nodes of `layer`, walked in order after those of `placed`, release.
pub open spec fn walk(es: Seq<(Text, Text)>, placed: Set<Text>, layer: Seq<Text>) -> Seq<Text>
    decreases layer.len(),
{
    if layer.len() == 0 {
        Seq::empty()
    } else {
        let now = placed.insert(layer[0]);
        released(es, now, layer[0], es) + walk(es, now, layer.drop_first())
    }
}

/// The `k`th generation: the nodes placed before it, and its own nodes in order. The first is
/// every node without an edge into it; each next one is what the one before releases.
pub open spec fn generation(ids: Seq<Text>, es: Seq<(Text, Text)>, k: nat) -> (Set<Text>, Seq<Text>)
    decreases k,
{
    if k == 0 {
        (Set::empty(), ids.filter(|id: Text| ready(es, Set::empty(), id)))
    } else {
        let (placed, layer) = generation(ids, es, (k - 1) as nat);
        (placed.union(layer.to_set()), walk(es, placed, layer))
    }
}

pub open spec fn layer_at(ids: Seq<Text>, es: Seq<(Text, Text)>, k: nat) -> Seq<Text> {
    generation(ids, es, k).1
}

/// There are `n` layers before the first empty one.
pub open spec fn is_depth(ids: Seq<Text>, es: Seq<(Text, Text)>, n: nat) -> bool {
    &&& layer_at(ids, es, n).len() == 0
    &&& forall|k: nat| k < n ==> (#[trigger] layer_at(ids, es, k)).len() > 0
}

pub open spec fn depth(ids: Seq<Text>, es: Seq<(Text, Text)>) -> nat {
    choose|n: nat| is_depth(ids, es, n)
}

/// All layers up to the first empty one.
pub open spec fn layering(ids: Seq<Text>, edges: Seq<(Text, Text)>) -> Seq<Seq<Text>> {
    let es = live(ids, edges);
    Seq::new(depth(ids, es), |k: int| layer_at(ids, es, k as nat))
}

/// A node id that occurs twice and has no edge into it has no edge out of it either.
pub open spec fn walkable(ids: Seq<Text>, edges: Seq<(Text, Text)>) -> bool {
    let es = live(ids, edges);
    forall|i: int, j: int|
        0 <= i < j < ids.len() && #[trigger] ids[i] == #[trigger] ids[j] && ready(es, Set::empty(), ids[i])
            ==> sourceless(es, ids[i])
}

/// No edge leaves `id`.
pub open spec fn sourceless(es: Seq<(Text, Text)>, id: Text) -> bool {
    forall|i: int| 0 <= i < es.len() ==> (#[trigger] es[i]).0 != id
}

// ---- counting edges ----

/// How many edges into `d` come from outside `placed`.
spec fn waiting(es: Seq<(Text, Text)>, placed: Set<Text>, d: Text) -> nat
    decreases es.len(),
{
    if es.len() == 0 {
        0
    } else {
        let e = es[0];
        (if e.1 == d && !placed.contains(e.0) { 1nat } else { 0nat }) + waiting(es.drop_first(), placed, d)
    }
}

/// How many edges lead from `f` to `d`.
spec fn between(es: Seq<(Text, Text)>, f: Text, d: Text) -> nat
    decreases es.len(),
{
    if es.len() == 0 {
        0
    } else {
        (if es[0] == (f, d) { 1nat } else { 0nat }) + between(es.drop_first(), f, d)
    }
}

proof fn lemma_waiting_splits(es: Seq<(Text, Text)>, placed: Set<Text>, id: Text, d: Text)
    requires
        !placed.contains(id),
    ensures
        waiting(es, placed, d) == waiting(es, placed.insert(id), d) + between(es, id, d),
    decreases es.len(),
{
    if es.len() > 0 {
        lemma_waiting_splits(es.drop_first(), placed, id, d);
    }
}

proof fn lemma_waiting_zero(es: Seq<(Text, Text)>, placed: Set<Text>, d: Text)
    ensures
        waiting(es, placed, d) == 0 <==> ready(es, placed, d),
    decreases es.len(),
{
    if es.len() > 0 {
        let tail = es.drop_first();
        lemma_waiting_zero(tail, placed, d);
        assert(es[0] == es[0]);
        if ready(es, placed, d) {
            assert forall|i: int| 0 <= i < tail.len() && (#[trigger] tail[i]).1 == d implies placed.contains(tail[i].0) by {
                assert(es[i + 1] == tail[i]);
            }
        }
        if ready(tail, placed, d) && (es[0].1 == d ==> placed.contains(es[0].0)) {
            assert forall|i: int| 0 <= i < es.len() && (#[trigger] es[i]).1 == d implies placed.contains(es[i].0) by {
                if i > 0 {
                    assert(es[i] == tail[i - 1]);
                }
            }
        }
    }
}

proof fn lemma_between_zero(es: Seq<(Text, Text)>, f: Text, d: Text)
    ensures
        between(es, f, d) == 0 <==> !es.contains((f, d)),
        between(es, f, d) <= es.len(),
    decreases es.len(),
{
    if es.len() > 0 {
        let tail = es.drop_first();
        lemma_between_zero(tail, f, d);
        if tail.contains((f, d)) {
            let i = choose|i: int| 0 <= i < tail.len() && tail[i] == (f, d);
            assert(es[i + 1] == (f, d));
        }
        if es.contains((f, d)) && es[0] != (f, d) {
            let i = choose|i: int| 0 <= i < es.len() && es[i] == (f, d);
            assert(tail[i - 1] == (f, d));
        }
    }
}

proof fn lemma_waiting_bound(es: Seq<(Text, Text)>, placed: Set<Text>, d: Text)
    ensures
        waiting(es, placed, d) <= es.len(),
    decreases es.len(),
{
    if es.len() > 0 {
        lemma_waiting_bound(es.drop_first(), placed, d);
    }
}

proof fn lemma_waiting_push(es: Seq<(Text, Text)>, e: (Text, Text), placed: Set<Text>, d: Text)
    ensures
        waiting(es.push(e), placed, d) == waiting(es, placed, d) + if e.1 == d && !placed.contains(e.0) { 1nat } else { 0nat },
    decreases es.len(),
{
    if es.len() > 0 {
        lemma_waiting_push(es.drop_first(), e, placed, d);
        assert(es.push(e).drop_first() =~= es.drop_first().push(e));
    } else {
        assert(es.push(e).drop_first() =~= es);
    }
}


// ---- what each generation satisfies ----

/// Nodes that occur twice in `layer`, or are already in `placed`, have no edges out of them.
spec fn unrepeated(es: Seq<(Text, Text)>, placed: Set<Text>, layer: Seq<Text>) -> bool {
    &&& forall|j: int| 0 <= j < layer.len() && placed.contains(#[trigger] layer[j]) ==> sourceless(es, layer[j])
    &&& forall|i: int, j: int|
        0 <= i < j < layer.len() && #[trigger] layer[i] == #[trigger] layer[j] ==> sourceless(es, layer[i])
}

proof fn lemma_released(es: Seq<(Text, Text)>, placed: Set<Text>, id: Text, rest: Seq<(Text, Text)>)
    ensures
        forall|x: Text|
            #[trigger] released(es, placed, id, rest).contains(x) ==> rest.contains((id, x)) && ready(es, placed, x),
        released(es, placed, id, rest).no_duplicates(),
    decreases rest.len(),
{
    if rest.len() > 0 {
        let tail_edges = rest.drop_first();
        lemma_released(es, placed, id, tail_edges);
        let out = released(es, placed, id, rest);
        let tail = released(es, placed, id, tail_edges);
        assert forall|x: Text| #[trigger] out.contains(x) implies rest.contains((id, x)) && ready(es, placed, x) by {
            if tail.contains(x) {
                let i = choose|i: int| 0 <= i < tail_edges.len() && tail_edges[i] == (id, x);
                assert(rest[i + 1] == (id, x));
            } else {
                let j = choose|j: int| 0 <= j < out.len() && out[j] == x;
                if out.len() == tail.len() + 1 {
                    if j > 0 {
                        assert(tail[j - 1] == x);
                    }
                }
                assert(x == rest[0].1);
                assert(rest[0] == (id, x));
            }
        }
        if out != tail {
            assert(!tail.contains(rest[0].1));
            assert forall|a: int, b: int| 0 <= a < b < out.len() implies out[a] != out[b] by {
                assert(out[b] == tail[b - 1]);
                if a > 0 {
                    assert(out[a] == tail[a - 1]);
                }
            }
        }
    }
}

proof fn lemma_ready_grows(es: Seq<(Text, Text)>, p: Set<Text>, q: Set<Text>, d: Text)
    requires
        p.subset_of(q),
        ready(es, p, d),
    ensures
        ready(es, q, d),
{
}

proof fn lemma_walk(es: Seq<(Text, Text)>, placed: Set<Text>, layer: Seq<Text>)
    requires
        unrepeated(es, placed, layer),
    ensures
        forall|x: Text|
            #[trigger] walk(es, placed, layer).contains(x) ==> ready(es, placed.union(layer.to_set()), x)
                && exists|j: int| 0 <= j < layer.len() && es.contains((#[trigger] layer[j], x)),
        walk(es, placed, layer).no_duplicates(),
    decreases layer.len(),
{
    if layer.len() > 0 {
        let now = placed.insert(layer[0]);
        let rest = layer.drop_first();
        let head = released(es, now, layer[0], es);
        let tail = walk(es, now, rest);
        assert(unrepeated(es, now, rest)) by {
            assert forall|j: int| 0 <= j < rest.len() && now.contains(#[trigger] rest[j]) implies sourceless(es, rest[j]) by {
                assert(rest[j] == layer[j + 1]);
                if rest[j] == layer[0] {
                    assert(layer[0] == layer[j + 1]);
                }
            }
            assert forall|i: int, j: int| 0 <= i < j < rest.len() && #[trigger] rest[i] == #[trigger] rest[j]
                implies sourceless(es, rest[i]) by {
                assert(layer[i + 1] == layer[j + 1]);
            }
        }
        lemma_released(es, now, layer[0], es);
        lemma_walk(es, now, rest);
        let all = placed.union(layer.to_set());
        assert(now.union(rest.to_set()) =~= all) by {
            assert forall|x: Text| now.union(rest.to_set()).contains(x) == all.contains(x) by {
                if layer.contains(x) {
                    let j = choose|j: int| 0 <= j < layer.len() && layer[j] == x;
                    if j > 0 {
                        assert(rest[j - 1] == x);
                    }
                }
                if rest.contains(x) {
                    let j = choose|j: int| 0 <= j < rest.len() && rest[j] == x;
                    assert(layer[j + 1] == x);
                }
                assert(layer.contains(layer[0]));
            }
        }
        let out = walk(es, placed, layer);
        assert forall|x: Text| #[trigger] out.contains(x) implies ready(es, all, x)
            && exists|j: int| 0 <= j < layer.len() && es.contains((#[trigger] layer[j], x)) by {
            let p = choose|p: int| 0 <= p < out.len() && out[p] == x;
            if p < head.len() {
                assert(head.contains(x));
                assert(es.contains((layer[0], x)));
                lemma_ready_grows(es, now, all, x);
            } else {
                assert(tail[p - head.len()] == x);
                assert(tail.contains(x));
                let j = choose|j: int| 0 <= j < rest.len() && es.contains((#[trigger] rest[j], x));
                assert(es.contains((layer[j + 1], x)));
            }
        }
        assert forall|a: int, b: int| 0 <= a < b < out.len() implies out[a] != out[b] by {
            if b < head.len() {
                assert(head[a] != head[b]);
            } else if a >= head.len() {
                assert(tail[a - head.len()] != tail[b - head.len()]);
            } else if out[a] == out[b] {
                let x = out[a];
                assert(head[a] == x && head.contains(x));
                assert(tail[b - head.len()] == x && tail.contains(x));
                let j = choose|j: int| 0 <= j < rest.len() && es.contains((#[trigger] rest[j], x));
                let m = choose|m: int| 0 <= m < es.len() && es[m] == (rest[j], x);
                assert(now.contains(es[m].0));
                assert(sourceless(es, rest[j]));
                assert(false);
            }
        }
    }
}

/// The nodes of a generation are among `ids`, wait for nothing but what was placed before them,
/// and were not placed before.
spec fn sound(ids: Seq<Text>, es: Seq<(Text, Text)>, placed: Set<Text>, layer: Seq<Text>) -> bool {
    &&& forall|x: Text| #[trigger] placed.contains(x) ==> ids.contains(x) && ready(es, placed, x)
    &&& forall|x: Text| #[trigger] layer.contains(x) ==> ids.contains(x) && ready(es, placed, x) && !placed.contains(x)
    &&& unrepeated(es, placed, layer)
}

spec fn within(ids: Seq<Text>, es: Seq<(Text, Text)>) -> bool {
    forall|i: int| 0 <= i < es.len() ==> ids.contains((#[trigger] es[i]).0) && ids.contains(es[i].1)
}

spec fn roots_once(ids: Seq<Text>, es: Seq<(Text, Text)>) -> bool {
    forall|i: int, j: int|
        0 <= i < j < ids.len() && #[trigger] ids[i] == #[trigger] ids[j] && ready(es, Set::empty(), ids[i])
            ==> sourceless(es, ids[i])
}

proof fn lemma_filter_positions(s: Seq<Text>, p: spec_fn(Text) -> bool, a: int, b: int) -> (r: (int, int))
    requires
        0 <= a < b < s.filter(p).len(),
    ensures
        0 <= r.0 < r.1 < s.len(),
        s[r.0] == s.filter(p)[a],
        s[r.1] == s.filter(p)[b],
    decreases s.len(),
{
    reveal(Seq::filter);
    let rest = s.drop_last();
    if p(s.last()) && b == s.filter(p).len() - 1 {
        assert(rest.filter(p).contains(rest.filter(p)[a]));
        rest.lemma_filter_pred(p, a);
        let x = s.filter(p)[a];
        assert(rest.contains(x)) by {
            lemma_filter_in(rest, p, a);
        }
        let i = choose|i: int| 0 <= i < rest.len() && rest[i] == x;
        assert(s[i] == x);
        (i, s.len() - 1)
    } else {
        lemma_filter_positions(rest, p, a, b)
    }
}

proof fn lemma_filter_in(s: Seq<Text>, p: spec_fn(Text) -> bool, a: int)
    requires
        0 <= a < s.filter(p).len(),
    ensures
        s.contains(s.filter(p)[a]),
        p(s.filter(p)[a]),
    decreases s.len(),
{
    reveal(Seq::filter);
    let rest = s.drop_last();
    if p(s.last()) && a == s.filter(p).len() - 1 {
        assert(s[s.len() - 1] == s.filter(p)[a]);
    } else {
        lemma_filter_in(rest, p, a);
        let i = choose|i: int| 0 <= i < rest.len() && rest[i] == rest.filter(p)[a];
        assert(s[i] == s.filter(p)[a]);
    }
}

proof fn lemma_generation(ids: Seq<Text>, es: Seq<(Text, Text)>, k: nat)
    requires
        within(ids, es),
        roots_once(ids, es),
    ensures
        sound(ids, es, generation(ids, es, k).0, generation(ids, es, k).1),
        k > 0 ==> generation(ids, es, k).1.no_duplicates(),
    decreases k,
{
    if k == 0 {
        let p = |id: Text| ready(es, Set::empty(), id);
        let layer = generation(ids, es, k).1;
        assert(layer == ids.filter(p));
        assert forall|x: Text| #[trigger] layer.contains(x) implies ids.contains(x) && ready(es, Set::empty(), x) by {
            let a = choose|a: int| 0 <= a < layer.len() && layer[a] == x;
            lemma_filter_in(ids, p, a);
        }
        assert forall|i: int, j: int| 0 <= i < j < layer.len() && #[trigger] layer[i] == #[trigger] layer[j]
            implies sourceless(es, layer[i]) by {
            let (a, b) = lemma_filter_positions(ids, p, i, j);
            lemma_filter_in(ids, p, i);
            assert(ids[a] == ids[b]);
        }
    } else {
        let (placed, layer) = generation(ids, es, (k - 1) as nat);
        lemma_generation(ids, es, (k - 1) as nat);
        lemma_walk(es, placed, layer);
        let now = placed.union(layer.to_set());
        let next = walk(es, placed, layer);
        assert forall|x: Text| #[trigger] now.contains(x) implies ids.contains(x) && ready(es, now, x) by {
            if placed.contains(x) {
                lemma_ready_grows(es, placed, now, x);
            } else {
                assert(layer.contains(x));
                lemma_ready_grows(es, placed, now, x);
            }
        }
        assert forall|x: Text| #[trigger] next.contains(x) implies ids.contains(x) && ready(es, now, x) && !now.contains(x) by {
            let j = choose|j: int| 0 <= j < layer.len() && es.contains((#[trigger] layer[j], x));
            let m = choose|m: int| 0 <= m < es.len() && es[m] == (layer[j], x);
            assert(ids.contains(es[m].1));
            if now.contains(x) {
                assert(layer.contains(layer[j]));
                assert(ready(es, placed, x)) by {
                    if !placed.contains(x) {
                        assert(layer.contains(x));
                    }
                }
                assert(placed.contains(es[m].0));
                assert(false);
            }
        }
        assert forall|i: int, j: int| 0 <= i < j < next.len() && #[trigger] next[i] == #[trigger] next[j]
            implies sourceless(es, next[i]) by {
        }
        assert forall|j: int| 0 <= j < next.len() && now.contains(#[trigger] next[j]) implies sourceless(es, next[j]) by {
            assert(next.contains(next[j]));
        }
    }
}

// ---- counting nodes ----

/// How many positions of `ids` hold a node of `placed`.
spec fn covered(ids: Seq<Text>, placed: Set<Text>) -> nat
    decreases ids.len(),
{
    if ids.len() == 0 {
        0
    } else {
        covered(ids.drop_last(), placed) + if placed.contains(ids.last()) { 1nat } else { 0nat }
    }
}

proof fn lemma_covered_bound(ids: Seq<Text>, placed: Set<Text>)
    ensures
        covered(ids, placed) <= ids.len(),
    decreases ids.len(),
{
    if ids.len() > 0 {
        lemma_covered_bound(ids.drop_last(), placed);
    }
}

proof fn lemma_covered_insert(ids: Seq<Text>, placed: Set<Text>, x: Text)
    requires
        !placed.contains(x),
    ensures
        covered(ids, placed.insert(x)) >= covered(ids, placed) + if ids.contains(x) { 1nat } else { 0nat },
    decreases ids.len(),
{
    if ids.len() > 0 {
        let rest = ids.drop_last();
        lemma_covered_insert(rest, placed, x);
        if ids.contains(x) && ids.last() != x {
            let i = choose|i: int| 0 <= i < ids.len() && ids[i] == x;
            assert(rest[i] == x);
        }
    }
}

proof fn lemma_covered_layer(ids: Seq<Text>, placed: Set<Text>, layer: Seq<Text>)
    requires
        layer.no_duplicates(),
        forall|x: Text| #[trigger] layer.contains(x) ==> ids.contains(x) && !placed.contains(x),
    ensures
        covered(ids, placed.union(layer.to_set())) >= covered(ids, placed) + layer.len(),
    decreases layer.len(),
{
    if layer.len() == 0 {
        assert(placed.union(layer.to_set()) =~= placed);
    } else {
        let rest = layer.drop_last();
        let x = layer.last();
        assert(layer.contains(x));
        assert forall|y: Text| #[trigger] rest.contains(y) implies ids.contains(y) && !placed.contains(y) by {
            let i = choose|i: int| 0 <= i < rest.len() && rest[i] == y;
            assert(layer[i] == y);
            assert(layer.contains(y));
        }
        lemma_covered_layer(ids, placed, rest);
        let before = placed.union(rest.to_set());
        assert(!before.contains(x)) by {
            if rest.contains(x) {
                let i = choose|i: int| 0 <= i < rest.len() && rest[i] == x;
                assert(layer[i] == layer[layer.len() - 1]);
            }
        }
        lemma_covered_insert(ids, before, x);
        assert(before.insert(x) =~= placed.union(layer.to_set())) by {
            assert forall|y: Text| before.insert(x).contains(y) == placed.union(layer.to_set()).contains(y) by {
                if layer.contains(y) && y != x {
                    let i = choose|i: int| 0 <= i < layer.len() && layer[i] == y;
                    assert(rest[i] == y);
                }
                if rest.contains(y) {
                    let i = choose|i: int| 0 <= i < rest.len() && rest[i] == y;
                    assert(layer[i] == y);
                }
            }
        }
    }
}

proof fn lemma_covered_filter(ids: Seq<Text>, p: spec_fn(Text) -> bool, placed: Set<Text>)
    requires
        forall|i: int| 0 <= i < ids.len() && p(#[trigger] ids[i]) ==> placed.contains(ids[i]),
    ensures
        covered(ids, placed) >= ids.filter(p).len(),
    decreases ids.len(),
{
    reveal(Seq::filter);
    if ids.len() > 0 {
        let rest = ids.drop_last();
        assert forall|i: int| 0 <= i < rest.len() && p(#[trigger] rest[i]) implies placed.contains(rest[i]) by {
            assert(rest[i] == ids[i]);
        }
        lemma_covered_filter(rest, p, placed);
        assert(ids[ids.len() - 1] == ids.last());
    }
}

/// A generation adds at most as many nodes as there are positions left to cover.
proof fn lemma_covered_step(ids: Seq<Text>, es: Seq<(Text, Text)>, k: nat)
    requires
        within(ids, es),
        roots_once(ids, es),
    ensures
        covered(ids, generation(ids, es, k + 1).0) >= covered(ids, generation(ids, es, k).0) + generation(ids, es, k).1.len(),
{
    let (placed, layer) = generation(ids, es, k);
    lemma_generation(ids, es, k);
    assert(generation(ids, es, k + 1).0 == placed.union(layer.to_set()));
    if k == 0 {
        let p = |id: Text| ready(es, Set::empty(), id);
        assert(layer == ids.filter(p));
        let now = placed.union(layer.to_set());
        assert forall|i: int| 0 <= i < ids.len() && p(#[trigger] ids[i]) implies now.contains(ids[i]) by {
            ids.lemma_filter_contains(p, i);
            assert(layer.contains(ids[i]));
        }
        lemma_covered_filter(ids, p, now);
        lemma_covered_none(ids);
    } else {
        lemma_covered_layer(ids, placed, layer);
    }
}

proof fn lemma_covered_none(ids: Seq<Text>)
    ensures
        covered(ids, Set::empty()) == 0,
    decreases ids.len(),
{
    if ids.len() > 0 {
        lemma_covered_none(ids.drop_last());
    }
}


// ---- the walk itself ----

/// `i` is the first position of its id.
spec fn is_first(ids: Seq<Text>, i: int) -> bool {
    0 <= i < ids.len() && forall|j: int| 0 <= j < i ==> #[trigger] ids[j] != ids[i]
}

/// `idx` holds the edges `es` as positions in `ids`.
spec fn indexed(ids: Seq<Text>, es: Seq<(Text, Text)>, idx: Seq<(usize, usize)>) -> bool {
    &&& idx.len() == es.len()
    &&& forall|i: int|
        0 <= i < idx.len() ==> is_first(ids, (#[trigger] idx[i]).0 as int) && is_first(ids, idx[i].1 as int)
            && es[i] == (ids[idx[i].0 as int], ids[idx[i].1 as int])
}

/// `left` holds, at the first position of each id, how many edges into it are still waiting.
spec fn tallied(ids: Seq<Text>, es: Seq<(Text, Text)>, placed: Set<Text>, left: Seq<usize>) -> bool {
    &&& left.len() == ids.len()
    &&& forall|d: int| is_first(ids, d) ==> #[trigger] left[d] == waiting(es, placed, ids[d])
}

spec fn names(ids: Seq<Text>, v: Seq<usize>) -> Seq<Text> {
    v.map_values(|i: usize| ids[i as int])
}

spec fn firsts(ids: Seq<Text>, v: Seq<usize>) -> bool {
    forall|i: int| 0 <= i < v.len() ==> is_first(ids, #[trigger] v[i] as int)
}

proof fn lemma_first_unique(ids: Seq<Text>, a: int, b: int)
    requires
        is_first(ids, a),
        is_first(ids, b),
        ids[a] == ids[b],
    ensures
        a == b,
{
    if a < b {
        assert(ids[a] != ids[b]);
    }
    if b < a {
        assert(ids[b] != ids[a]);
    }
}

fn first_index(ids: &[String], s: &str) -> (r: Option<usize>)
    ensures
        match r {
            Some(i) => is_first(texts(ids@), i as int) && texts(ids@)[i as int] == s@,
            None => !texts(ids@).contains(s@),
        },
{
    let mut i: usize = 0;
    while i < ids.len()
        invariant
            i <= ids@.len(),
            forall|j: int| 0 <= j < i ==> #[trigger] texts(ids@)[j] != s@,
        decreases ids@.len() - i,
    {
        if same(&ids[i], s) {
            return Some(i);
        }
        i += 1;
    }
    None
}

/// Walks the node at position `f`: takes its edges off the tallies, and adds to `next` each
/// node whose tally that brings to zero.
fn release(
    ids: Ghost<Seq<Text>>,
    es: Ghost<Seq<(Text, Text)>>,
    placed: Ghost<Set<Text>>,
    idx: &Vec<(usize, usize)>,
    f: usize,
    left: &mut Vec<usize>,
    next: &mut Vec<usize>,
)
    requires
        indexed(ids@, es@, idx@),
        tallied(ids@, es@, placed@, old(left)@),
        is_first(ids@, f as int),
        placed@.contains(ids@[f as int]) ==> sourceless(es@, ids@[f as int]),
        firsts(ids@, old(next)@),
    ensures
        tallied(ids@, es@, placed@.insert(ids@[f as int]), final(left)@),
        firsts(ids@, final(next)@),
        names(ids@, final(next)@) == names(ids@, old(next)@) + released(es@, placed@.insert(ids@[f as int]), ids@[f as int], es@),
{
    let ghost id = ids@[f as int];
    let ghost now = placed@.insert(id);
    let ghost goal = names(ids@, next@) + released(es@, now, id, es@);
    proof {
        assert forall|d: int| is_first(ids@, d) implies #[trigger] left@[d] == waiting(es@, now, ids@[d]) + between(es@.skip(0), id, ids@[d]) by {
            assert(es@.skip(0) =~= es@);
            if placed@.contains(id) {
                assert(now =~= placed@);
                lemma_between_zero(es@, id, ids@[d]);
            } else {
                lemma_waiting_splits(es@, placed@, id, ids@[d]);
            }
        }
        assert(es@.skip(0) =~= es@);
    }
    let mut j: usize = 0;
    while j < idx.len()
        invariant
            j <= idx@.len(),
            id == ids@[f as int],
            is_first(ids@, f as int),
            indexed(ids@, es@, idx@),
            left@.len() == ids@.len(),
            firsts(ids@, next@),
            forall|d: int| is_first(ids@, d) ==> #[trigger] left@[d] == waiting(es@, now, ids@[d]) + between(es@.skip(j as int), id, ids@[d]),
            goal == names(ids@, next@) + released(es@, now, id, es@.skip(j as int)),
        decreases idx@.len() - j,
    {
        let ghost before = es@.skip(j as int);
        let ghost after = es@.skip(j + 1);
        proof {
            assert(before[0] == es@[j as int]);
            assert(before.drop_first() =~= after);
            assert(is_first(ids@, idx@[j as int].0 as int) && is_first(ids@, idx@[j as int].1 as int));
            if ids@[idx@[j as int].0 as int] == id {
                lemma_first_unique(ids@, idx@[j as int].0 as int, f as int);
            }
        }
        if idx[j].0 == f {
            let d = idx[j].1;
            let ghost dest = ids@[d as int];
            assert(before[0] == (id, dest));
            assert(left@[d as int] == waiting(es@, now, dest) + between(before, id, dest));
            left[d] = left[d] - 1;
            proof {
                assert forall|x: int| is_first(ids@, x) implies #[trigger] left@[x] == waiting(es@, now, ids@[x]) + between(after, id, ids@[x]) by {
                    if ids@[x] == dest {
                        lemma_first_unique(ids@, x, d as int);
                    }
                }
                lemma_waiting_zero(es@, now, dest);
                lemma_between_zero(after, id, dest);
            }
            if left[d] == 0 {
                let ghost old_names = names(ids@, next@);
                next.push(d);
                proof {
                    assert(names(ids@, next@) =~= old_names.push(dest));
                    assert(old_names + (seq![dest] + released(es@, now, id, after)) =~= old_names.push(dest) + released(es@, now, id, after));
                }
            }
        }
        j += 1;
    }
    assert(released(es@, now, id, es@.skip(es@.len() as int)) =~= Seq::<Text>::empty());
    assert(goal =~= names(ids@, next@));
    assert forall|d: int| is_first(ids@, d) implies #[trigger] left@[d] == waiting(es@, now, ids@[d]) by {
        assert(es@.skip(es@.len() as int) =~= Seq::<(Text, Text)>::empty());
    }
}


/// The live edges as positions, and how many of them lead into each node.
fn resolve(node_ids: &[String], edges: &[(String, String)]) -> (r: (Vec<(usize, usize)>, Vec<usize>))
    ensures
        indexed(texts(node_ids@), live(texts(node_ids@), pairs(edges@)), r.0@),
        tallied(texts(node_ids@), live(texts(node_ids@), pairs(edges@)), Set::empty(), r.1@),
        r.0@.len() <= edges@.len(),
{
    let ghost ids = texts(node_ids@);
    let ghost all = pairs(edges@);
    let ghost p = |e: (Text, Text)| ids.contains(e.0) && ids.contains(e.1);
    let mut idx: Vec<(usize, usize)> = Vec::new();
    let mut left: Vec<usize> = Vec::new();
    let mut n: usize = 0;
    while n < node_ids.len()
        invariant
            n <= node_ids@.len(),
            left@.len() == n,
            forall|d: int| 0 <= d < n ==> #[trigger] left@[d] == 0,
        decreases node_ids@.len() - n,
    {
        left.push(0);
        n += 1;
    }
    let mut i: usize = 0;
    assert(all.take(0) =~= Seq::<(Text, Text)>::empty());
    assert(all.take(0).filter(p) =~= Seq::<(Text, Text)>::empty()) by {
        reveal(Seq::filter);
    }
    while i < edges.len()
        invariant
            i <= edges@.len(),
            ids == texts(node_ids@),
            all == pairs(edges@),
            p == (|e: (Text, Text)| ids.contains(e.0) && ids.contains(e.1)),
            indexed(ids, all.take(i as int).filter(p), idx@),
            tallied(ids, all.take(i as int).filter(p), Set::empty(), left@),
            idx@.len() <= i,
        decreases edges@.len() - i,
    {
        let ghost es = all.take(i as int).filter(p);
        let ghost e = all[i as int];
        proof {
            assert(all.take(i + 1) =~= all.take(i as int).push(e));
            all.take(i as int).lemma_filter_push(e, p);
            assert(e == (edges@[i as int].0@, edges@[i as int].1@));
        }
        let from = first_index(node_ids, &edges[i].0);
        let to = first_index(node_ids, &edges[i].1);
        match (from, to) {
            (Some(f), Some(t)) => {
                proof {
                    assert(ids.contains(ids[f as int]) && ids.contains(ids[t as int]));
                    assert forall|d: int| is_first(ids, d) implies #[trigger] waiting(es.push(e), Set::empty(), ids[d])
                        == waiting(es, Set::empty(), ids[d]) + if d == t { 1nat } else { 0nat } by {
                        lemma_waiting_push(es, e, Set::empty(), ids[d]);
                        if ids[d] == e.1 {
                            lemma_first_unique(ids, d, t as int);
                        }
                    }
                    lemma_waiting_bound(es, Set::empty(), ids[t as int]);
                    assert(left@[t as int] <= i);
                }
                idx.push((f, t));
                left[t] = left[t] + 1;
            },
            _ => {},
        }
        i += 1;
    }
    assert(all.take(edges@.len() as int) =~= all);
    assert(live(ids, all) == all.filter(p));
    (idx, left)
}

/// The first layer: every node that waits for nothing.
fn roots(node_ids: &[String], es: Ghost<Seq<(Text, Text)>>, left: &Vec<usize>) -> (r: Vec<usize>)
    requires
        tallied(texts(node_ids@), es@, Set::empty(), left@),
    ensures
        firsts(texts(node_ids@), r@),
        names(texts(node_ids@), r@) == layer_at(texts(node_ids@), es@, 0),
{
    let ghost ids = texts(node_ids@);
    let ghost p = |id: Text| ready(es@, Set::empty(), id);
    let mut out: Vec<usize> = Vec::new();
    let mut i: usize = 0;
    assert(ids.take(0).filter(p) =~= Seq::<Text>::empty()) by {
        reveal(Seq::filter);
    }
    while i < node_ids.len()
        invariant
            i <= node_ids@.len(),
            ids == texts(node_ids@),
            p == (|id: Text| ready(es@, Set::empty(), id)),
            tallied(ids, es@, Set::empty(), left@),
            firsts(ids, out@),
            names(ids, out@) == ids.take(i as int).filter(p),
        decreases node_ids@.len() - i,
    {
        proof {
            assert(ids.take(i + 1) =~= ids.take(i as int).push(ids[i as int]));
            ids.take(i as int).lemma_filter_push(ids[i as int], p);
        }
        match first_index(node_ids, &node_ids[i]) {
            Some(f) => {
                proof {
                    assert(left@[f as int] == waiting(es@, Set::empty(), ids[f as int]));
                    lemma_waiting_zero(es@, Set::empty(), ids[f as int]);
                }
                if left[f] == 0 {
                    let ghost before = names(ids, out@);
                    out.push(f);
                    assert(names(ids, out@) =~= before.push(ids[i as int]));
                }
            },
            None => {
                assert(ids.contains(ids[i as int]));
            },
        }
        i += 1;
    }
    assert(ids.take(node_ids@.len() as int) =~= ids);
    out
}

/// Walks a whole layer; gives back the next one.
fn walk_layer(
    ids: Ghost<Seq<Text>>,
    es: Ghost<Seq<(Text, Text)>>,
    placed: Ghost<Set<Text>>,
    idx: &Vec<(usize, usize)>,
    frontier: &Vec<usize>,
    left: &mut Vec<usize>,
) -> (next: Vec<usize>)
    requires
        indexed(ids@, es@, idx@),
        tallied(ids@, es@, placed@, old(left)@),
        firsts(ids@, frontier@),
        sound(ids@, es@, placed@, names(ids@, frontier@)),
    ensures
        tallied(ids@, es@, placed@.union(names(ids@, frontier@).to_set()), final(left)@),
        firsts(ids@, next@),
        names(ids@, next@) == walk(es@, placed@, names(ids@, frontier@)),
{
    let ghost layer = names(ids@, frontier@);
    let ghost goal = walk(es@, placed@, layer);
    let mut next: Vec<usize> = Vec::new();
    let ghost mut now = placed@;
    let mut i: usize = 0;
    assert(layer.skip(0) =~= layer);
    assert(names(ids@, next@) + goal =~= goal);
    assert(now =~= placed@.union(layer.take(0).to_set()));
    while i < frontier.len()
        invariant
            i <= frontier@.len(),
            layer == names(ids@, frontier@),
            indexed(ids@, es@, idx@),
            firsts(ids@, frontier@),
            firsts(ids@, next@),
            unrepeated(es@, placed@, layer),
            now == placed@.union(layer.take(i as int).to_set()),
            tallied(ids@, es@, now, left@),
            goal == names(ids@, next@) + walk(es@, now, layer.skip(i as int)),
        decreases frontier@.len() - i,
    {
        let ghost id = layer[i as int];
        proof {
            assert(layer.skip(i as int)[0] == id);
            assert(layer.skip(i as int).drop_first() =~= layer.skip(i + 1));
            if now.contains(id) {
                if !placed@.contains(id) {
                    let m = choose|m: int| 0 <= m < layer.take(i as int).len() && layer.take(i as int)[m] == id;
                    assert(layer[m] == layer[i as int]);
                }
                assert(sourceless(es@, id));
            }
            assert(layer.take(i + 1) =~= layer.take(i as int).push(id));
            assert(now.insert(id) =~= placed@.union(layer.take(i + 1).to_set())) by {
                layer.take(i as int).lemma_push_to_set_commute(id);
            }
        }
        let ghost before = names(ids@, next@);
        release(ids, es, Ghost(now), idx, frontier[i], left, &mut next);
        proof {
            let w = walk(es@, now.insert(id), layer.skip(i + 1));
            assert(before + (released(es@, now.insert(id), id, es@) + w) =~= before + released(es@, now.insert(id), id, es@) + w);
            now = now.insert(id);
        }
        i += 1;
    }
    assert(layer.take(layer.len() as int) =~= layer);
    assert(goal =~= names(ids@, next@));
    next
}

fn texts_at(node_ids: &[String], frontier: &Vec<usize>) -> (r: Vec<String>)
    requires
        firsts(texts(node_ids@), frontier@),
    ensures
        texts(r@) == names(texts(node_ids@), frontier@),
{
    let mut out: Vec<String> = Vec::new();
    let mut i: usize = 0;
    while i < frontier.len()
        invariant
            i <= frontier@.len(),
            firsts(texts(node_ids@), frontier@),
            out@.len() == i,
            forall|j: int| 0 <= j < i ==> #[trigger] out@[j]@ == texts(node_ids@)[frontier@[j] as int],
        decreases frontier@.len() - i,
    {
        assert(is_first(texts(node_ids@), frontier@[i as int] as int));
        out.push(node_ids[frontier[i]].clone());
        i += 1;
    }
    assert(texts(out@) =~= names(texts(node_ids@), frontier@));
    out
}

/// The layers of a flow: the first is everything with no unmet dependency, each next one is
/// what becomes runnable once the one before is done. `None` on a cycle. Ties inside a layer
/// resolve by the order of `node_ids` and `edges`; a dangling edge is ignored.
pub fn layers(node_ids: &[String], edges: &[(String, String)]) -> (r: Option<Vec<Vec<String>>>)
    requires
        walkable(texts(node_ids@), pairs(edges@)),
    ensures
        r is Some <==> layering(texts(node_ids@), pairs(edges@)).flatten().len() == node_ids@.len(),
        r matches Some(out) ==> rows(out@) == layering(texts(node_ids@), pairs(edges@)),
{
    let ghost ids = texts(node_ids@);
    let ghost es = live(ids, pairs(edges@));
    let (idx, mut left) = resolve(node_ids, edges);
    let mut frontier = roots(node_ids, Ghost(es), &left);
    let mut out: Vec<Vec<String>> = Vec::new();
    let mut placed: usize = 0;
    let count = node_ids.len();
    proof {
        assert(within(ids, es)) by {
            assert forall|i: int| 0 <= i < es.len() implies ids.contains((#[trigger] es[i]).0) && ids.contains(es[i].1) by {
                pairs(edges@).lemma_filter_pred(|e: (Text, Text)| ids.contains(e.0) && ids.contains(e.1), i);
            }
        }
        lemma_covered_none(ids);
        assert(rows(out@).flatten() =~= Seq::<Text>::empty());
    }
    while frontier.len() > 0
        invariant
            ids == texts(node_ids@),
            count == ids.len(),
            es == live(ids, pairs(edges@)),
            within(ids, es),
            roots_once(ids, es),
            indexed(ids, es, idx@),
            firsts(ids, frontier@),
            names(ids, frontier@) == layer_at(ids, es, out@.len()),
            tallied(ids, es, generation(ids, es, out@.len()).0, left@),
            forall|k: int| 0 <= k < out@.len() ==> texts(#[trigger] out@[k]@) == layer_at(ids, es, k as nat)
                && out@[k]@.len() > 0,
            placed == rows(out@).flatten().len(),
            placed <= covered(ids, generation(ids, es, out@.len()).0),
        decreases ids.len() - placed,
    {
        let ghost k: nat = out@.len();
        let ghost done = generation(ids, es, k).0;
        proof {
            lemma_generation(ids, es, k);
            lemma_covered_step(ids, es, k);
            lemma_covered_bound(ids, generation(ids, es, k + 1).0);
        }
        placed += frontier.len();
        let ghost before = rows(out@);
        out.push(texts_at(node_ids, &frontier));
        proof {
            assert(rows(out@) =~= before.push(names(ids, frontier@)));
            before.lemma_flatten_push(names(ids, frontier@));
        }
        frontier = walk_layer(Ghost(ids), Ghost(es), Ghost(done), &idx, &frontier, &mut left);
    }
    proof {
        let n = out@.len();
        assert(is_depth(ids, es, n)) by {
            assert forall|k: nat| k < n implies (#[trigger] layer_at(ids, es, k)).len() > 0 by {
                assert(texts(out@[k as int]@) == layer_at(ids, es, k));
            }
        }
        lemma_depth(ids, es, n);
        assert(rows(out@) =~= layering(ids, pairs(edges@)));
    }
    if placed == count {
        Some(out)
    } else {
        None
    }
}

proof fn lemma_depth(ids: Seq<Text>, es: Seq<(Text, Text)>, n: nat)
    requires
        is_depth(ids, es, n),
    ensures
        depth(ids, es) == n,
{
    let m = depth(ids, es);
    assert(is_depth(ids, es, m));
    if m < n {
        assert(layer_at(ids, es, m).len() > 0);
    }
    if n < m {
        assert(layer_at(ids, es, n).len() > 0);
    }
}


// ---- laws ----

/// `ids` in which no id occurs twice.
pub open spec fn distinct(ids: Seq<Text>) -> bool {
    ids.no_duplicates()
}

/// There is a cycle: a non-empty set of nodes each of which has an edge from a node of the set.
pub open spec fn cyclic(ids: Seq<Text>, edges: Seq<(Text, Text)>) -> bool {
    exists|c: Set<Text>| #[trigger] is_cycle(ids, edges, c)
}

pub open spec fn is_cycle(ids: Seq<Text>, edges: Seq<(Text, Text)>, c: Set<Text>) -> bool {
    &&& exists|x: Text| #[trigger] c.contains(x)
    &&& forall|x: Text| #[trigger] c.contains(x) ==> ids.contains(x)
    &&& forall|x: Text| #[trigger] c.contains(x) ==> exists|f: Text| #[trigger] c.contains(f) && edges.contains((f, x))
}

proof fn lemma_walkable(ids: Seq<Text>, edges: Seq<(Text, Text)>)
    requires
        distinct(ids),
    ensures
        walkable(ids, edges),
        roots_once(ids, live(ids, edges)),
        within(ids, live(ids, edges)),
{
    let es = live(ids, edges);
    assert forall|i: int| 0 <= i < es.len() implies ids.contains((#[trigger] es[i]).0) && ids.contains(es[i].1) by {
        edges.lemma_filter_pred(|e: (Text, Text)| ids.contains(e.0) && ids.contains(e.1), i);
    }
}

proof fn lemma_live(ids: Seq<Text>, edges: Seq<(Text, Text)>, e: (Text, Text))
    ensures
        live(ids, edges).contains(e) <==> edges.contains(e) && ids.contains(e.0) && ids.contains(e.1),
{
    let p = |e: (Text, Text)| ids.contains(e.0) && ids.contains(e.1);
    let es = edges.filter(p);
    if es.contains(e) {
        let i = choose|i: int| 0 <= i < es.len() && es[i] == e;
        edges.lemma_filter_pred(p, i);
        edges.lemma_filter_contains_rev(p, e);
    }
    if edges.contains(e) && p(e) {
        let i = choose|i: int| 0 <= i < edges.len() && edges[i] == e;
        edges.lemma_filter_contains(p, i);
    }
}

proof fn lemma_released_has(es: Seq<(Text, Text)>, placed: Set<Text>, id: Text, rest: Seq<(Text, Text)>, d: Text)
    requires
        rest.contains((id, d)),
        ready(es, placed, d),
    ensures
        released(es, placed, id, rest).contains(d),
    decreases rest.len(),
{
    let tail_edges = rest.drop_first();
    let tail = released(es, placed, id, tail_edges);
    let out = released(es, placed, id, rest);
    if tail_edges.contains((id, d)) {
        lemma_released_has(es, placed, id, tail_edges, d);
        let i = choose|i: int| 0 <= i < tail.len() && tail[i] == d;
        if out != tail {
            assert(out[i + 1] == d);
        }
    } else {
        let i = choose|i: int| 0 <= i < rest.len() && rest[i] == (id, d);
        if i > 0 {
            assert(tail_edges[i - 1] == (id, d));
        }
        assert(rest[0] == (id, d));
        assert(out[0] == d);
    }
}

proof fn lemma_walk_has(es: Seq<(Text, Text)>, placed: Set<Text>, layer: Seq<Text>, d: Text)
    requires
        ready(es, placed.union(layer.to_set()), d),
        !ready(es, placed, d),
    ensures
        walk(es, placed, layer).contains(d),
    decreases layer.len(),
{
    if layer.len() == 0 {
        assert(placed.union(layer.to_set()) =~= placed);
    } else {
        let now = placed.insert(layer[0]);
        let rest = layer.drop_first();
        let head = released(es, now, layer[0], es);
        let tail = walk(es, now, rest);
        let out = walk(es, placed, layer);
        if ready(es, now, d) {
            let i = choose|i: int| 0 <= i < es.len() && (#[trigger] es[i]).1 == d && !placed.contains(es[i].0);
            assert(es[i] == (layer[0], d));
            lemma_released_has(es, now, layer[0], es, d);
            let j = choose|j: int| 0 <= j < head.len() && head[j] == d;
            assert(out[j] == d);
        } else {
            assert forall|i: int| 0 <= i < es.len() && (#[trigger] es[i]).1 == d implies now.union(rest.to_set()).contains(es[i].0) by {
                if layer.contains(es[i].0) && !now.contains(es[i].0) {
                    let j = choose|j: int| 0 <= j < layer.len() && layer[j] == es[i].0;
                    assert(rest[j - 1] == es[i].0);
                }
            }
            lemma_walk_has(es, now, rest, d);
            let j = choose|j: int| 0 <= j < tail.len() && tail[j] == d;
            assert(out[head.len() + j] == d);
        }
    }
}

/// A node all of whose sources are placed is itself placed by the end of that generation.
proof fn lemma_complete(ids: Seq<Text>, es: Seq<(Text, Text)>, k: nat, d: Text)
    requires
        ids.contains(d),
        ready(es, generation(ids, es, k).0, d),
    ensures
        generation(ids, es, k).0.contains(d) || generation(ids, es, k).1.contains(d),
    decreases k,
{
    if k == 0 {
        let i = choose|i: int| 0 <= i < ids.len() && ids[i] == d;
        ids.lemma_filter_contains(|id: Text| ready(es, Set::empty(), id), i);
    } else {
        let (placed, layer) = generation(ids, es, (k - 1) as nat);
        if ready(es, placed, d) {
            lemma_complete(ids, es, (k - 1) as nat, d);
        } else {
            lemma_walk_has(es, placed, layer, d);
        }
    }
}

proof fn lemma_depth_exists(ids: Seq<Text>, es: Seq<(Text, Text)>, k: nat)
    requires
        within(ids, es),
        roots_once(ids, es),
        forall|j: nat| j < k ==> (#[trigger] layer_at(ids, es, j)).len() > 0,
        covered(ids, generation(ids, es, k).0) >= k,
    ensures
        is_depth(ids, es, depth(ids, es)),
    decreases ids.len() + 1 - k,
{
    lemma_covered_bound(ids, generation(ids, es, k).0);
    if layer_at(ids, es, k).len() == 0 {
        assert(is_depth(ids, es, k));
    } else {
        lemma_covered_step(ids, es, k);
        lemma_depth_exists(ids, es, k + 1);
    }
}

spec fn first_layers(ids: Seq<Text>, es: Seq<(Text, Text)>, k: nat) -> Seq<Seq<Text>> {
    Seq::new(k, |i: int| layer_at(ids, es, i as nat))
}

proof fn lemma_first_layers(ids: Seq<Text>, es: Seq<(Text, Text)>, k: nat)
    requires
        distinct(ids),
        within(ids, es),
        roots_once(ids, es),
    ensures
        first_layers(ids, es, k).flatten().no_duplicates(),
        forall|x: Text| #[trigger] first_layers(ids, es, k).flatten().contains(x) <==> generation(ids, es, k).0.contains(x),
        first_layers(ids, es, k).flatten().len() <= covered(ids, generation(ids, es, k).0),
    decreases k,
{
    if k == 0 {
        assert(first_layers(ids, es, 0).flatten() =~= Seq::<Text>::empty());
    } else {
        let j = (k - 1) as nat;
        lemma_first_layers(ids, es, j);
        lemma_generation(ids, es, j);
        lemma_covered_step(ids, es, j);
        let (placed, layer) = generation(ids, es, j);
        let before = first_layers(ids, es, j).flatten();
        let after = first_layers(ids, es, k).flatten();
        assert(first_layers(ids, es, k) =~= first_layers(ids, es, j).push(layer));
        first_layers(ids, es, j).lemma_flatten_push(layer);
        assert(after =~= before + layer);
        assert(layer.no_duplicates()) by {
            if j == 0 {
                assert forall|a: int, b: int| 0 <= a < b < layer.len() implies layer[a] != layer[b] by {
                    let p = |id: Text| ready(es, Set::empty(), id);
                    let (c, d) = lemma_filter_positions(ids, p, a, b);
                    assert(ids[c] != ids[d]);
                }
            }
        }
        assert forall|a: int, b: int| 0 <= a < b < after.len() implies after[a] != after[b] by {
            if b < before.len() {
                assert(before[a] != before[b]);
            } else if a >= before.len() {
                assert(layer[a - before.len()] != layer[b - before.len()]);
            } else {
                assert(before.contains(before[a]));
                assert(layer.contains(layer[b - before.len()]));
            }
        }
        assert forall|x: Text| #[trigger] after.contains(x) <==> generation(ids, es, k).0.contains(x) by {
            if after.contains(x) {
                let i = choose|i: int| 0 <= i < after.len() && after[i] == x;
                if i < before.len() {
                    assert(before.contains(x));
                } else {
                    assert(layer[i - before.len()] == x);
                }
            }
            if placed.contains(x) {
                assert(before.contains(x));
                let i = choose|i: int| 0 <= i < before.len() && before[i] == x;
                assert(after[i] == x);
            }
            if layer.contains(x) {
                let i = choose|i: int| 0 <= i < layer.len() && layer[i] == x;
                assert(after[before.len() + i] == x);
            }
        }
    }
}

proof fn lemma_all_covered(ids: Seq<Text>, placed: Set<Text>)
    requires
        covered(ids, placed) == ids.len(),
    ensures
        forall|x: Text| #[trigger] ids.contains(x) ==> placed.contains(x),
    decreases ids.len(),
{
    if ids.len() > 0 {
        lemma_covered_bound(ids.drop_last(), placed);
        lemma_all_covered(ids.drop_last(), placed);
        assert forall|x: Text| #[trigger] ids.contains(x) implies placed.contains(x) by {
            let i = choose|i: int| 0 <= i < ids.len() && ids[i] == x;
            if i < ids.len() - 1 {
                assert(ids.drop_last()[i] == x);
                assert(ids.drop_last().contains(x));
            }
        }
    }
}

proof fn lemma_layering(ids: Seq<Text>, edges: Seq<(Text, Text)>)
    requires
        distinct(ids),
    ensures
        is_depth(ids, live(ids, edges), depth(ids, live(ids, edges))),
        layering(ids, edges) == first_layers(ids, live(ids, edges), depth(ids, live(ids, edges))),
{
    lemma_walkable(ids, edges);
    lemma_depth_exists(ids, live(ids, edges), 0);
    assert(layering(ids, edges) =~= first_layers(ids, live(ids, edges), depth(ids, live(ids, edges))));
}

proof fn lemma_outside_cycle(ids: Seq<Text>, edges: Seq<(Text, Text)>, c: Set<Text>, k: nat)
    requires
        distinct(ids),
        is_cycle(ids, edges, c),
    ensures
        forall|x: Text| #[trigger] c.contains(x) ==> !generation(ids, live(ids, edges), k).0.contains(x),
    decreases k,
{
    if k > 0 {
        let es = live(ids, edges);
        let j = (k - 1) as nat;
        lemma_walkable(ids, edges);
        lemma_generation(ids, es, j);
        lemma_outside_cycle(ids, edges, c, j);
        let (placed, layer) = generation(ids, es, j);
        assert forall|x: Text| #[trigger] c.contains(x) implies !generation(ids, es, k).0.contains(x) by {
            if layer.contains(x) {
                let f = choose|f: Text| #[trigger] c.contains(f) && edges.contains((f, x));
                lemma_live(ids, edges, (f, x));
                let m = choose|m: int| 0 <= m < es.len() && es[m] == (f, x);
                assert(placed.contains(es[m].0));
            }
        }
    }
}

/// The layers fall short of the nodes exactly when the flow has a cycle: a flow is refused if
/// and only if it is cyclic.
pub proof fn law_refused_iff_cyclic(ids: Seq<Text>, edges: Seq<(Text, Text)>)
    requires
        distinct(ids),
    ensures
        layering(ids, edges).flatten().len() != ids.len() <==> cyclic(ids, edges),
{
    let es = live(ids, edges);
    let n = depth(ids, es);
    lemma_walkable(ids, edges);
    lemma_layering(ids, edges);
    lemma_first_layers(ids, es, n);
    lemma_generation(ids, es, n);
    let placed = generation(ids, es, n).0;
    let flat = layering(ids, edges).flatten();
    lemma_covered_bound(ids, placed);
    if flat.len() == ids.len() && cyclic(ids, edges) {
        let c = choose|c: Set<Text>| #[trigger] is_cycle(ids, edges, c);
        lemma_all_covered(ids, placed);
        lemma_outside_cycle(ids, edges, c, n);
        let x = choose|x: Text| #[trigger] c.contains(x);
        assert(ids.contains(x));
        assert(false);
    }
    if flat.len() != ids.len() {
        let c = ids.to_set().difference(placed);
        assert(exists|x: Text| #[trigger] c.contains(x)) by {
            if forall|x: Text| !(#[trigger] c.contains(x)) {
                assert(ids.to_set().subset_of(flat.to_set())) by {
                    assert forall|x: Text| ids.to_set().contains(x) implies #[trigger] flat.to_set().contains(x) by {
                        assert(!c.contains(x));
                        assert(flat.contains(x));
                    }
                }
                ids.unique_seq_to_set();
                flat.unique_seq_to_set();
                seq_to_set_is_finite(flat);
                vstd::set_lib::lemma_len_subset(ids.to_set(), flat.to_set());
                assert(false);
            }
        }
        assert forall|x: Text| #[trigger] c.contains(x) implies exists|f: Text| #[trigger] c.contains(f) && edges.contains((f, x)) by {
            if ready(es, placed, x) {
                lemma_complete(ids, es, n, x);
                assert(layer_at(ids, es, n).contains(x));
                assert(false);
            }
            let i = choose|i: int| 0 <= i < es.len() && (#[trigger] es[i]).1 == x && !placed.contains(es[i].0);
            assert(es.contains(es[i]));
            lemma_live(ids, edges, es[i]);
            assert(ids.contains(es[i].0));
            assert(c.contains(es[i].0));
        }
        assert(is_cycle(ids, edges, c));
    }
}

/// Of a flow without a cycle, the layers taken together hold every node exactly once.
pub proof fn law_every_node_placed_once(ids: Seq<Text>, edges: Seq<(Text, Text)>)
    requires
        distinct(ids),
        !cyclic(ids, edges),
    ensures
        layering(ids, edges).flatten().no_duplicates(),
        layering(ids, edges).flatten().to_set() == ids.to_set(),
{
    let es = live(ids, edges);
    let n = depth(ids, es);
    law_refused_iff_cyclic(ids, edges);
    lemma_walkable(ids, edges);
    lemma_layering(ids, edges);
    lemma_first_layers(ids, es, n);
    lemma_generation(ids, es, n);
    let placed = generation(ids, es, n).0;
    lemma_covered_bound(ids, placed);
    lemma_all_covered(ids, placed);
    let flat = layering(ids, edges).flatten();
    assert forall|x: Text| flat.to_set().contains(x) == ids.to_set().contains(x) by {
        assert(flat.contains(x) == placed.contains(x));
        assert(ids.contains(x) ==> placed.contains(x));
        assert(placed.contains(x) ==> ids.contains(x));
    }
    assert(flat.to_set() =~= ids.to_set());
}

proof fn lemma_placed_in(ids: Seq<Text>, es: Seq<(Text, Text)>, k: nat, x: Text) -> (j: nat)
    requires
        generation(ids, es, k).0.contains(x),
    ensures
        j < k,
        layer_at(ids, es, j).contains(x),
    decreases k,
{
    let (placed, layer) = generation(ids, es, (k - 1) as nat);
    if layer.contains(x) {
        (k - 1) as nat
    } else {
        lemma_placed_in(ids, es, (k - 1) as nat, x)
    }
}

/// Every edge between two nodes of the flow leads from an earlier layer to a later one.
pub proof fn law_edges_lead_forward(ids: Seq<Text>, edges: Seq<(Text, Text)>, k: int, e: (Text, Text))
    requires
        distinct(ids),
        edges.contains(e),
        ids.contains(e.0),
        0 <= k < layering(ids, edges).len(),
        layering(ids, edges)[k].contains(e.1),
    ensures
        exists|j: int| 0 <= j < k && (#[trigger] layering(ids, edges)[j]).contains(e.0),
{
    let es = live(ids, edges);
    lemma_walkable(ids, edges);
    lemma_generation(ids, es, k as nat);
    assert(layer_at(ids, es, k as nat).contains(e.1));
    lemma_live(ids, edges, e);
    let m = choose|m: int| 0 <= m < es.len() && es[m] == e;
    assert(generation(ids, es, k as nat).0.contains(es[m].0));
    let j = lemma_placed_in(ids, es, k as nat, e.0);
    assert(layering(ids, edges)[j as int].contains(e.0));
}


/// No layer is empty, so there are at most as many layers as nodes.
pub proof fn law_layers_are_not_empty(ids: Seq<Text>, edges: Seq<(Text, Text)>)
    requires
        distinct(ids),
    ensures
        forall|k: int| 0 <= k < layering(ids, edges).len() ==> (#[trigger] layering(ids, edges)[k]).len() > 0,
        layering(ids, edges).len() <= ids.len(),
{
    let es = live(ids, edges);
    let n = depth(ids, es);
    lemma_walkable(ids, edges);
    lemma_layering(ids, edges);
    assert forall|k: int| 0 <= k < layering(ids, edges).len() implies (#[trigger] layering(ids, edges)[k]).len() > 0 by {
        assert(layer_at(ids, es, k as nat).len() > 0);
    }
    lemma_depth_bound(ids, es, n);
    lemma_covered_bound(ids, generation(ids, es, n).0);
}

proof fn lemma_depth_bound(ids: Seq<Text>, es: Seq<(Text, Text)>, n: nat)
    requires
        within(ids, es),
        roots_once(ids, es),
        forall|k: nat| k < n ==> (#[trigger] layer_at(ids, es, k)).len() > 0,
    ensures
        covered(ids, generation(ids, es, n).0) >= n,
    decreases n,
{
    if n > 0 {
        lemma_depth_bound(ids, es, (n - 1) as nat);
        lemma_covered_step(ids, es, (n - 1) as nat);
        assert(layer_at(ids, es, (n - 1) as nat).len() > 0);
    }
}

}
