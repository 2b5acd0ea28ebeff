//! Coordinates for the nodes of a drafted flow that came without any: left to right by
//! dependency depth, top to bottom within a depth.

use vstd::prelude::*;
use vstd::string::*;

use crate::flow::graph::{
    cyclic, distinct, law_edges_lead_forward, law_every_node_placed_once, law_layers_are_not_empty, layering, Text,
};
use crate::flow::ids::lemma_decimal_injective;
use crate::json::{as_text, entries, law_fields_read_back, models, part, part_of, put, text_of, with_field, Json, JsonView};
use crate::strmap::StrMap;
use crate::text::{decimal, decimal_u64};

verus! {

/// The node has coordinates of its own.
pub open spec fn positioned(n: JsonView) -> bool {
    part(n, "x"@) is Number && part(n, "y"@) is Number
}

/// The id a node goes by; the empty one where it has none.
pub open spec fn id_of(n: JsonView) -> Text {
    match as_text(part(n, "id"@)) {
        Some(id) => id,
        None => Seq::empty(),
    }
}

// ---- depths ----

/// Every node that has an id, at depth zero.
pub open spec fn at_zero(nodes: Seq<JsonView>) -> Map<Text, int>
    decreases nodes.len(),
{
    if nodes.len() == 0 {
        Map::empty()
    } else {
        let before = at_zero(nodes.drop_last());
        match as_text(part(nodes.last(), "id"@)) {
            Some(id) => before.insert(id, 0),
            None => before,
        }
    }
}

/// One edge taken into account: its target lies deeper than its source.
pub open spec fn relax_edge(depths: Map<Text, int>, e: JsonView) -> Map<Text, int> {
    match (as_text(part(e, "from"@)), as_text(part(e, "to"@))) {
        (Some(f), Some(t)) => if depths.contains_key(f) && depths.contains_key(t) && depths[f] + 1 > depths[t] {
            depths.insert(t, depths[f] + 1)
        } else {
            depths
        },
        _ => depths,
    }
}

/// Every edge taken into account once, in order.
pub open spec fn relax(depths: Map<Text, int>, edges: Seq<JsonView>) -> Map<Text, int>
    decreases edges.len(),
{
    if edges.len() == 0 {
        depths
    } else {
        relax_edge(relax(depths, edges.drop_last()), edges.last())
    }
}

/// The edges taken into account `k` times over.
pub open spec fn relaxed(depths: Map<Text, int>, edges: Seq<JsonView>, k: nat) -> Map<Text, int>
    decreases k,
{
    if k == 0 {
        depths
    } else {
        relax(relaxed(depths, edges, (k - 1) as nat), edges)
    }
}

/// How often the edges are taken into account: once for each node, which is enough for every
/// flow without a cycle and ends on every other.
pub open spec fn passes(nodes: Seq<JsonView>) -> nat {
    if nodes.len() == 0 {
        1
    } else {
        nodes.len()
    }
}

/// The depth of every node.
pub open spec fn depths_of(nodes: Seq<JsonView>, edges: Seq<JsonView>) -> Map<Text, int> {
    relaxed(at_zero(nodes), edges, passes(nodes))
}

pub open spec fn depth_of(depths: Map<Text, int>, n: JsonView) -> int {
    if depths.contains_key(id_of(n)) {
        depths[id_of(n)]
    } else {
        0
    }
}

// ---- places ----

/// How many of `nodes` need a place at depth `d`.
pub open spec fn row_of(nodes: Seq<JsonView>, depths: Map<Text, int>, d: int) -> nat
    decreases nodes.len(),
{
    if nodes.len() == 0 {
        0
    } else {
        row_of(nodes.drop_last(), depths, d) + if !positioned(nodes.last()) && depth_of(depths, nodes.last()) == d { 1nat } else { 0nat }
    }
}

/// The node at a place in the grid.
pub open spec fn placed_at(n: JsonView, d: int, row: nat) -> JsonView {
    match n {
        JsonView::Object(o) => JsonView::Object(
            with_field(
                with_field(o, "x"@, JsonView::Number(decimal((40 + 300 * d) as nat))),
                "y"@,
                JsonView::Number(decimal(40 + 170 * row)),
            ),
        ),
        _ => n,
    }
}

/// The nodes laid out: one with coordinates keeps them, every other stands in the column of its
/// depth, below those before it.
pub open spec fn laid_out(nodes: Seq<JsonView>, depths: Map<Text, int>) -> Seq<JsonView> {
    Seq::new(
        nodes.len(),
        |i: int|
            if positioned(nodes[i]) {
                nodes[i]
            } else {
                placed_at(nodes[i], depth_of(depths, nodes[i]), row_of(nodes.take(i), depths, depth_of(depths, nodes[i])))
            },
    )
}

/// The coordinates of a flow of this size can be written down.
pub open spec fn layout_fits(nodes: nat, edges: nat) -> bool {
    &&& (if nodes == 0 { 1 } else { nodes }) * edges * 300 + 40 <= i64::MAX
    &&& nodes * 170 + 40 <= i64::MAX
}

// ---- the walk ----

pub open spec fn ints(m: Map<Text, u64>) -> Map<Text, int> {
    m.map_values(|v: u64| v as int)
}

fn is_positioned(n: &Json) -> (r: bool)
    ensures
        r == positioned(n.model()),
{
    let x = match part_of(n, "x") {
        Some(Json::Number(_)) => true,
        _ => false,
    };
    let y = match part_of(n, "y") {
        Some(Json::Number(_)) => true,
        _ => false,
    };
    x && y
}

/// No depth is above `bound`.
spec fn bounded(depths: Map<Text, int>, bound: int) -> bool {
    forall|id: Text| #[trigger] depths.contains_key(id) ==> 0 <= depths[id] <= bound
}

fn zero_depths(nodes: &Vec<Json>) -> (r: StrMap<u64>)
    ensures
        ints(r@) == at_zero(models(nodes@)),
        bounded(ints(r@), 0),
{
    let ghost all = models(nodes@);
    let mut out: StrMap<u64> = StrMap::new();
    let mut i: usize = 0;
    assert(all.take(0) =~= Seq::<JsonView>::empty());
    assert(ints(out@) =~= Map::<Text, int>::empty());
    while i < nodes.len()
        invariant
            i <= nodes@.len(),
            all == models(nodes@),
            ints(out@) == at_zero(all.take(i as int)),
            bounded(ints(out@), 0),
        decreases nodes@.len() - i,
    {
        let ghost before = ints(out@);
        assert(all.take(i + 1).drop_last() =~= all.take(i as int));
        assert(all.take(i + 1).last() == nodes@[i as int].model());
        match text_of(&nodes[i], "id") {
            Some(id) => {
                out.set(id, 0);
                assert(ints(out@) =~= before.insert(id@, 0));
            },
            None => {},
        }
        i += 1;
    }
    assert(all.take(all.len() as int) =~= all);
    out
}

fn relax_once(depths: &mut StrMap<u64>, edges: &Vec<Json>, bound: Ghost<int>)
    requires
        bounded(ints(old(depths)@), bound@),
        bound@ + edges@.len() <= u64::MAX,
    ensures
        ints(final(depths)@) == relax(ints(old(depths)@), models(edges@)),
        bounded(ints(final(depths)@), bound@ + edges@.len()),
{
    let ghost start = ints(depths@);
    let ghost all = models(edges@);
    let mut i: usize = 0;
    assert(all.take(0) =~= Seq::<JsonView>::empty());
    while i < edges.len()
        invariant
            i <= edges@.len(),
            all == models(edges@),
            bound@ + edges@.len() <= u64::MAX,
            ints(depths@) == relax(start, all.take(i as int)),
            bounded(ints(depths@), bound@ + i),
        decreases edges@.len() - i,
    {
        let ghost before = ints(depths@);
        let ghost e = all[i as int];
        assert(all.take(i + 1).drop_last() =~= all.take(i as int));
        assert(all.take(i + 1).last() == e);
        match (text_of(&edges[i], "from"), text_of(&edges[i], "to")) {
            (Some(f), Some(t)) => {
                match (depths.get(f), depths.get(t)) {
                    (Some(df), Some(dt)) => {
                        let near = *df;
                        let far = *dt;
                        proof {
                            assert(before.contains_key(f@) && before.contains_key(t@));
                            assert(before[f@] == near && before[t@] == far);
                        }
                        if near + 1 > far {
                            depths.set(t, near + 1);
                            assert(ints(depths@) =~= before.insert(t@, near + 1));
                        }
                    },
                    _ => {
                        assert(!(before.contains_key(f@) && before.contains_key(t@)));
                    },
                }
            },
            _ => {},
        }
        assert(bounded(ints(depths@), bound@ + i + 1)) by {
            assert forall|id: Text| #[trigger] ints(depths@).contains_key(id) implies 0 <= ints(depths@)[id] <= bound@ + i + 1 by {
                if ints(depths@) != before {
                    assert(before.contains_key(id));
                }
                assert(before.contains_key(id));
            }
        }
        i += 1;
    }
    assert(all.take(all.len() as int) =~= all);
}

fn all_depths(nodes: &Vec<Json>, edges: &Vec<Json>) -> (r: StrMap<u64>)
    requires
        layout_fits(nodes@.len(), edges@.len()),
    ensures
        ints(r@) == depths_of(models(nodes@), models(edges@)),
        bounded(ints(r@), (passes(models(nodes@)) * edges@.len()) as int),
{
    let mut depths = zero_depths(nodes);
    let rounds: usize = if nodes.len() == 0 { 1 } else { nodes.len() };
    let ghost n = passes(models(nodes@));
    let mut k: usize = 0;
    assert(0 * edges@.len() == 0) by (nonlinear_arith);
    while k < rounds
        invariant
            k <= rounds,
            rounds == n,
            n == passes(models(nodes@)),
            layout_fits(nodes@.len(), edges@.len()),
            ints(depths@) == relaxed(at_zero(models(nodes@)), models(edges@), k as nat),
            bounded(ints(depths@), k * edges@.len()),
        decreases rounds - k,
    {
        proof {
            assert(k * edges@.len() + edges@.len() == (k + 1) * edges@.len()) by (nonlinear_arith);
            assert((k + 1) * edges@.len() <= n * edges@.len()) by (nonlinear_arith)
                requires
                    k + 1 <= n,
            ;
        }
        relax_once(&mut depths, edges, Ghost(k * edges@.len()));
        k += 1;
    }
    depths
}

/// How many of `used` are `d`.
spec fn times(used: Seq<u64>, d: int) -> nat
    decreases used.len(),
{
    if used.len() == 0 {
        0
    } else {
        times(used.drop_last(), d) + if used.last() == d { 1nat } else { 0nat }
    }
}

fn count_uses(used: &Vec<u64>, d: u64) -> (r: u64)
    requires
        used@.len() <= i64::MAX,
    ensures
        r == times(used@, d as int),
        r <= used@.len(),
{
    let mut n: u64 = 0;
    let mut i: usize = 0;
    assert(used@.take(0) =~= Seq::<u64>::empty());
    while i < used.len()
        invariant
            i <= used@.len() <= i64::MAX,
            n <= i,
            n == times(used@.take(i as int), d as int),
        decreases used@.len() - i,
    {
        assert(used@.take(i + 1).drop_last() =~= used@.take(i as int));
        if used[i] == d {
            n += 1;
        }
        i += 1;
    }
    assert(used@.take(used@.len() as int) =~= used@);
    n
}

fn place(node: &mut Json, d: u64, row: u64)
    requires
        40 + 300 * d <= i64::MAX,
        40 + 170 * row <= i64::MAX,
    ensures
        final(node).model() == placed_at(old(node).model(), d as int, row as nat),
{
    let ghost before = node.model();
    match node {
        Json::Object(o) => {
            assert(before->Object_0 =~= entries(o@));
            let x = decimal_u64(40 + 300 * d);
            let y = decimal_u64(40 + 170 * row);
            put(o, "x", Json::Number(x));
            put(o, "y", Json::Number(y));
        },
        _ => {},
    }
    assert(node.model() == placed_at(before, d as int, row as nat)) by {
        match *node {
            Json::Object(o) => {
                assert(node.model()->Object_0 =~= entries(o@));
            },
            _ => {},
        }
    }
}

/// Lays out the nodes that came without coordinates; the others stay where they are.
pub fn auto_layout(nodes: &mut Vec<Json>, edges: &Vec<Json>)
    requires
        layout_fits(old(nodes)@.len(), edges@.len()),
    ensures
        models(final(nodes)@) == laid_out(models(old(nodes)@), depths_of(models(old(nodes)@), models(edges@))),
{
    let depths = all_depths(nodes, edges);
    let ghost all = models(nodes@);
    let ghost ds = ints(depths@);
    let ghost goal = laid_out(all, ds);
    let mut used: Vec<u64> = Vec::new();
    let mut i: usize = 0;
    assert(all.take(0) =~= Seq::<JsonView>::empty());
    while i < nodes.len()
        invariant
            i <= nodes@.len(),
            nodes@.len() == all.len(),
            layout_fits(all.len(), edges@.len()),
            ds == ints(depths@),
            bounded(ds, (passes(all) * edges@.len()) as int),
            goal == laid_out(all, ds),
            forall|j: int| 0 <= j < i ==> (#[trigger] nodes@[j]).model() == goal[j],
            forall|j: int| i <= j < all.len() ==> (#[trigger] nodes@[j]).model() == all[j],
            used@.len() <= i,
            forall|d: int| #[trigger] times(used@, d) == row_of(all.take(i as int), ds, d),
        decreases nodes@.len() - i,
    {
        let ghost n = all[i as int];
        assert(nodes@[i as int].model() == n);
        assert(all.take(i + 1).drop_last() =~= all.take(i as int));
        assert(all.take(i + 1).last() == n);
        if !is_positioned(&nodes[i]) {
            let d: u64 = match text_of(&nodes[i], "id") {
                Some(id) => match depths.get(id) {
                    Some(v) => *v,
                    None => 0,
                },
                None => match depths.get("") {
                    Some(v) => *v,
                    None => 0,
                },
            };
            proof {
                reveal_strlit("");
                assert(""@ =~= Seq::<char>::empty());
                assert(d == depth_of(ds, n)) by {
                    assert(ds.contains_key(id_of(n)) == depths@.contains_key(id_of(n)));
                }
                assert(0 <= d <= passes(all) * edges@.len()) by {
                    assert(0 <= passes(all) * edges@.len()) by (nonlinear_arith);
                    if ds.contains_key(id_of(n)) {
                        assert(ds[id_of(n)] == d);
                    }
                }
            }
            let row = count_uses(&used, d);
            assert(times(used@, d as int) == row_of(all.take(i as int), ds, d as int));
            let ghost was = used@;
            used.push(d);
            assert(used@.drop_last() =~= was);
            place(&mut nodes[i], d, row);
            assert(nodes@[i as int].model() == goal[i as int]);
            assert forall|k: int| #[trigger] times(used@, k) == row_of(all.take(i + 1), ds, k) by {
                assert(times(was, k) == row_of(all.take(i as int), ds, k));
            }
        } else {
            assert(nodes@[i as int].model() == goal[i as int]);
            assert forall|k: int| #[trigger] times(used@, k) == row_of(all.take(i + 1), ds, k) by {
                assert(times(used@, k) == row_of(all.take(i as int), ds, k));
            }
        }
        i += 1;
    }
    assert(models(nodes@) =~= goal);
}


// ---- laws ----

/// The ids of the nodes that have one.
pub open spec fn ids_of(nodes: Seq<JsonView>) -> Seq<Text>
    decreases nodes.len(),
{
    if nodes.len() == 0 {
        Seq::empty()
    } else {
        let before = ids_of(nodes.drop_last());
        match as_text(part(nodes.last(), "id"@)) {
            Some(id) => before.push(id),
            None => before,
        }
    }
}

/// The two ends of an edge that has both.
pub open spec fn ends_of(e: JsonView) -> Option<(Text, Text)> {
    match (as_text(part(e, "from"@)), as_text(part(e, "to"@))) {
        (Some(f), Some(t)) => Some((f, t)),
        _ => None,
    }
}

pub open spec fn source_of(e: JsonView) -> Text {
    as_text(part(e, "from"@))->0
}

pub open spec fn target_of(e: JsonView) -> Text {
    as_text(part(e, "to"@))->0
}

/// The edges that have both ends.
pub open spec fn pairs_of(edges: Seq<JsonView>) -> Seq<(Text, Text)>
    decreases edges.len(),
{
    if edges.len() == 0 {
        Seq::empty()
    } else {
        let before = pairs_of(edges.drop_last());
        match ends_of(edges.last()) {
            Some(p) => before.push(p),
            None => before,
        }
    }
}

proof fn lemma_pairs(edges: Seq<JsonView>, i: int)
    requires
        0 <= i < edges.len(),
        ends_of(edges[i]) is Some,
    ensures
        pairs_of(edges).contains(ends_of(edges[i])->0),
    decreases edges.len(),
{
    let before = pairs_of(edges.drop_last());
    let all = pairs_of(edges);
    if i < edges.len() - 1 {
        lemma_pairs(edges.drop_last(), i);
        let k = choose|k: int| 0 <= k < before.len() && before[k] == ends_of(edges[i])->0;
        assert(all[k] == ends_of(edges[i])->0);
    } else {
        assert(all[before.len() as int] == ends_of(edges[i])->0);
    }
}

proof fn lemma_zero(nodes: Seq<JsonView>)
    ensures
        ids_of(nodes).len() <= nodes.len(),
        forall|x: Text| #[trigger] at_zero(nodes).contains_key(x) <==> ids_of(nodes).contains(x),
        forall|x: Text| #[trigger] at_zero(nodes).contains_key(x) ==> at_zero(nodes)[x] == 0,
    decreases nodes.len(),
{
    if nodes.len() > 0 {
        let rest = nodes.drop_last();
        lemma_zero(rest);
        let before = ids_of(rest);
        let all = ids_of(nodes);
        let named = as_text(part(nodes.last(), "id"@));
        assert forall|x: Text| #[trigger] at_zero(nodes).contains_key(x) <==> all.contains(x) by {
            assert(at_zero(rest).contains_key(x) <==> before.contains(x));
            if named is Some {
                if before.contains(x) {
                    let k = choose|k: int| 0 <= k < before.len() && before[k] == x;
                    assert(all[k] == x);
                }
                assert(all[before.len() as int] == named->0);
                if all.contains(x) && x != named->0 {
                    let k = choose|k: int| 0 <= k < all.len() && all[k] == x;
                    assert(before[k] == x);
                }
            }
        }
        assert forall|x: Text| #[trigger] at_zero(nodes).contains_key(x) implies at_zero(nodes)[x] == 0 by {
            assert(at_zero(rest).contains_key(x) ==> at_zero(rest)[x] == 0);
        }
    }
}

proof fn lemma_relax_grows(depths: Map<Text, int>, edges: Seq<JsonView>, k: int)
    requires
        0 <= k <= edges.len(),
    ensures
        relax(depths, edges).dom() == depths.dom(),
        forall|x: Text| #[trigger] depths.contains_key(x) ==> relax(depths, edges.take(k))[x] <= relax(depths, edges)[x],
        forall|x: Text| #[trigger] depths.contains_key(x) ==> depths[x] <= relax(depths, edges)[x],
    decreases edges.len(),
{
    if edges.len() > 0 {
        let rest = edges.drop_last();
        if k < edges.len() {
            lemma_relax_grows(depths, rest, k);
            assert(rest.take(k) =~= edges.take(k));
        } else {
            lemma_relax_grows(depths, rest, rest.len() as int);
            assert(edges.take(k) =~= edges);
        }
        assert(relax(depths, edges).dom() =~= depths.dom());
    } else {
        assert(edges.take(k) =~= edges);
    }
}

/// `x` stands in one of the first `k` layers.
spec fn early(ls: Seq<Seq<Text>>, k: int, x: Text) -> bool {
    exists|j: int| 0 <= j < k && j < ls.len() && (#[trigger] ls[j]).contains(x)
}

/// Every edge into one of the first `k` layers leads to a greater depth.
spec fn rising(depths: Map<Text, int>, edges: Seq<JsonView>, ls: Seq<Seq<Text>>, k: int) -> bool {
    forall|i: int|
        0 <= i < edges.len() && ends_of(#[trigger] edges[i]) is Some && depths.contains_key(source_of(edges[i])) && depths.contains_key(
            target_of(edges[i]),
        ) && early(ls, k, target_of(edges[i])) ==> depths[source_of(edges[i])] < depths[target_of(edges[i])]
}

/// What has risen stays: taking the edges into account again changes nothing in the first layers.
proof fn lemma_settled_part(depths: Map<Text, int>, ids: Seq<Text>, edges: Seq<JsonView>, k: int, m: int)
    requires
        distinct(ids),
        depths.dom() == ids.to_set(),
        rising(depths, edges, layering(ids, pairs_of(edges)), k),
        0 <= m <= edges.len(),
    ensures
        forall|x: Text| early(layering(ids, pairs_of(edges)), k, x) && depths.contains_key(x) ==> #[trigger] relax(depths, edges.take(m))[x] == depths[x],
        relax(depths, edges.take(m)).dom() == depths.dom(),
    decreases m,
{
    let ls = layering(ids, pairs_of(edges));
    let now = relax(depths, edges.take(m));
    if m == 0 {
        assert(edges.take(0) =~= Seq::<JsonView>::empty());
    } else {
        lemma_settled_part(depths, ids, edges, k, m - 1);
        let before = relax(depths, edges.take(m - 1));
        assert(edges.take(m).drop_last() =~= edges.take(m - 1));
        assert(edges.take(m).last() == edges[m - 1]);
        let e = edges[m - 1];
        assert(now.dom() =~= depths.dom());
        assert forall|x: Text| early(ls, k, x) && depths.contains_key(x) implies #[trigger] now[x] == depths[x] by {
            assert(before[x] == depths[x]);
            if ends_of(e) is Some && target_of(e) == x && before.contains_key(source_of(e)) {
                let f = source_of(e);
                lemma_pairs(edges, m - 1);
                lemma_source_early(ids, edges, k, (f, x));
                assert(depths.contains_key(f));
                assert(before[f] == depths[f]);
            }
        }
    }
}

/// The source of an edge into the first layers stands in the first layers, one fewer.
proof fn lemma_source_early(ids: Seq<Text>, edges: Seq<JsonView>, k: int, e: (Text, Text))
    requires
        distinct(ids),
        pairs_of(edges).contains(e),
        ids.to_set().contains(e.0),
        early(layering(ids, pairs_of(edges)), k, e.1),
    ensures
        early(layering(ids, pairs_of(edges)), k - 1, e.0),
        early(layering(ids, pairs_of(edges)), k, e.0),
{
    let ls = layering(ids, pairs_of(edges));
    let j = choose|j: int| 0 <= j < k && j < ls.len() && (#[trigger] ls[j]).contains(e.1);
    law_edges_lead_forward(ids, pairs_of(edges), j, e);
    let h = choose|h: int| 0 <= h < j && (#[trigger] ls[h]).contains(e.0);
    assert(ls[h].contains(e.0));
}

/// Once more round the edges, one more layer has risen.
proof fn lemma_rises(depths: Map<Text, int>, ids: Seq<Text>, edges: Seq<JsonView>, k: int)
    requires
        distinct(ids),
        depths.dom() == ids.to_set(),
        rising(depths, edges, layering(ids, pairs_of(edges)), k),
    ensures
        rising(relax(depths, edges), edges, layering(ids, pairs_of(edges)), k + 1),
        relax(depths, edges).dom() == depths.dom(),
{
    let ls = layering(ids, pairs_of(edges));
    let after = relax(depths, edges);
    let n = edges.len() as int;
    assert(edges.take(n) =~= edges);
    lemma_settled_part(depths, ids, edges, k, n);
    assert forall|i: int|
        0 <= i < edges.len() && ends_of(#[trigger] edges[i]) is Some && after.contains_key(source_of(edges[i])) && after.contains_key(
            target_of(edges[i]),
        ) && early(ls, k + 1, target_of(edges[i])) implies after[source_of(edges[i])] < after[target_of(edges[i])] by {
        let f = source_of(edges[i]);
        let t = target_of(edges[i]);
        lemma_pairs(edges, i);
        lemma_source_early(ids, edges, k + 1, (f, t));
        assert(early(ls, k, f));
        lemma_settled_part(depths, ids, edges, k, i);
        lemma_settled_part(depths, ids, edges, k, i + 1);
        let here = relax(depths, edges.take(i));
        let next = relax(depths, edges.take(i + 1));
        assert(edges.take(i + 1).drop_last() =~= edges.take(i));
        assert(edges.take(i + 1).last() == edges[i]);
        assert(here[f] == depths[f]);
        assert(next[f] == depths[f]);
        assert(after[f] == depths[f]);
        assert(here.contains_key(f) && here.contains_key(t));
        assert(next[t] >= here[f] + 1);
        lemma_relax_grows(depths, edges, i + 1);
        assert(depths.contains_key(t));
        assert(next[t] <= after[t]);
    }
}

proof fn lemma_rises_all(nodes: Seq<JsonView>, edges: Seq<JsonView>, k: nat)
    requires
        distinct(ids_of(nodes)),
    ensures
        relaxed(at_zero(nodes), edges, k).dom() == ids_of(nodes).to_set(),
        rising(relaxed(at_zero(nodes), edges, k), edges, layering(ids_of(nodes), pairs_of(edges)), k as int),
    decreases k,
{
    let ids = ids_of(nodes);
    lemma_zero(nodes);
    if k == 0 {
        assert(at_zero(nodes).dom() =~= ids.to_set());
    } else {
        lemma_rises_all(nodes, edges, (k - 1) as nat);
        lemma_rises(relaxed(at_zero(nodes), edges, (k - 1) as nat), ids, edges, k - 1);
    }
}

/// In a flow without a cycle every edge leads from left to right: its target lies deeper than
/// its source.
pub proof fn law_edges_lead_right(nodes: Seq<JsonView>, edges: Seq<JsonView>, i: int)
    requires
        distinct(ids_of(nodes)),
        !cyclic(ids_of(nodes), pairs_of(edges)),
        0 <= i < edges.len(),
        ends_of(edges[i]) is Some,
        ids_of(nodes).contains(source_of(edges[i])),
        ids_of(nodes).contains(target_of(edges[i])),
    ensures
        depths_of(nodes, edges)[source_of(edges[i])] < depths_of(nodes, edges)[target_of(edges[i])],
{
    let ids = ids_of(nodes);
    let es = pairs_of(edges);
    let ls = layering(ids, es);
    let f = source_of(edges[i]);
    let t = target_of(edges[i]);
    let n = passes(nodes);
    lemma_zero(nodes);
    lemma_rises_all(nodes, edges, n);
    law_every_node_placed_once(ids, es);
    law_layers_are_not_empty(ids, es);
    assert(ids.to_set().contains(t));
    assert(ls.flatten().contains(t));
    lemma_in_some_layer(ls, t);
    let j = choose|j: int| 0 <= j < ls.len() && (#[trigger] ls[j]).contains(t);
    assert(early(ls, n as int, t));
    let d = depths_of(nodes, edges);
    assert(d.dom().contains(f) && d.dom().contains(t));
    assert(ends_of(edges[i]) is Some);
}

proof fn lemma_in_some_layer(ls: Seq<Seq<Text>>, x: Text)
    requires
        ls.flatten().contains(x),
    ensures
        exists|j: int| 0 <= j < ls.len() && (#[trigger] ls[j]).contains(x),
    decreases ls.len(),
{
    if ls.len() == 0 {
        assert(ls.flatten() =~= Seq::<Text>::empty());
    } else {
        let init = ls.drop_last();
        assert(ls =~= init.push(ls.last()));
        init.lemma_flatten_push(ls.last());
        let all = ls.flatten();
        let k = choose|k: int| 0 <= k < all.len() && all[k] == x;
        if k < init.flatten().len() {
            assert(init.flatten()[k] == x);
            lemma_in_some_layer(init, x);
            let j = choose|j: int| 0 <= j < init.len() && (#[trigger] init[j]).contains(x);
            assert(ls[j].contains(x));
        } else {
            assert(ls.last()[k - init.flatten().len()] == x);
            assert(ls[ls.len() - 1].contains(x));
        }
    }
}

// ---- what a depth is ----

/// `p` leads along edges from node to node.
pub open spec fn is_walk(ids: Seq<Text>, es: Seq<(Text, Text)>, p: Seq<Text>) -> bool
    decreases p.len(),
{
    &&& p.len() > 0
    &&& ids.contains(p.last())
    &&& p.len() > 1 ==> is_walk(ids, es, p.drop_last()) && es.contains((p[p.len() - 2], p.last()))
}

/// `p` is a walk of `n` edges that ends at `x`.
pub open spec fn leads_to(ids: Seq<Text>, es: Seq<(Text, Text)>, p: Seq<Text>, x: Text, n: int) -> bool {
    is_walk(ids, es, p) && p.last() == x && p.len() == n + 1
}

/// Every depth is the number of edges of some walk.
spec fn witnessed(depths: Map<Text, int>, ids: Seq<Text>, es: Seq<(Text, Text)>) -> bool {
    forall|x: Text| #[trigger] depths.contains_key(x) ==> exists|p: Seq<Text>| leads_to(ids, es, p, x, depths[x])
}

proof fn lemma_relax_witnessed(depths: Map<Text, int>, ids: Seq<Text>, edges: Seq<JsonView>, m: int)
    requires
        witnessed(depths, ids, pairs_of(edges)),
        depths.dom() == ids.to_set(),
        0 <= m <= edges.len(),
    ensures
        witnessed(relax(depths, edges.take(m)), ids, pairs_of(edges)),
        relax(depths, edges.take(m)).dom() == depths.dom(),
    decreases m,
{
    let es = pairs_of(edges);
    let now = relax(depths, edges.take(m));
    if m == 0 {
        assert(edges.take(0) =~= Seq::<JsonView>::empty());
    } else {
        lemma_relax_witnessed(depths, ids, edges, m - 1);
        let before = relax(depths, edges.take(m - 1));
        assert(edges.take(m).drop_last() =~= edges.take(m - 1));
        assert(edges.take(m).last() == edges[m - 1]);
        let e = edges[m - 1];
        assert(now.dom() =~= depths.dom());
        assert forall|x: Text| #[trigger] now.contains_key(x) implies exists|p: Seq<Text>| leads_to(ids, es, p, x, now[x]) by {
            assert(before.contains_key(x));
            if now[x] != before[x] {
                let f = source_of(e);
                assert(ends_of(e) == Some((f, x)));
                lemma_pairs(edges, m - 1);
                assert(before.contains_key(f));
                let p = choose|p: Seq<Text>| leads_to(ids, es, p, f, before[f]);
                let q = p.push(x);
                assert(q.drop_last() =~= p);
                assert(ids.to_set().contains(x));
                assert(leads_to(ids, es, q, x, now[x]));
            }
        }
    }
}

proof fn lemma_relaxed_witnessed(nodes: Seq<JsonView>, edges: Seq<JsonView>, k: nat)
    ensures
        witnessed(relaxed(at_zero(nodes), edges, k), ids_of(nodes), pairs_of(edges)),
        relaxed(at_zero(nodes), edges, k).dom() == ids_of(nodes).to_set(),
    decreases k,
{
    let ids = ids_of(nodes);
    let es = pairs_of(edges);
    lemma_zero(nodes);
    if k == 0 {
        let start = at_zero(nodes);
        assert(start.dom() =~= ids.to_set());
        assert forall|x: Text| #[trigger] start.contains_key(x) implies exists|p: Seq<Text>| leads_to(ids, es, p, x, start[x]) by {
            assert(leads_to(ids, es, seq![x], x, 0));
        }
    } else {
        lemma_relaxed_witnessed(nodes, edges, (k - 1) as nat);
        lemma_relax_witnessed(relaxed(at_zero(nodes), edges, (k - 1) as nat), ids, edges, edges.len() as int);
        assert(edges.take(edges.len() as int) =~= edges);
    }
}

proof fn lemma_pair_of_edge(edges: Seq<JsonView>, e: (Text, Text)) -> (i: int)
    requires
        pairs_of(edges).contains(e),
    ensures
        0 <= i < edges.len(),
        ends_of(edges[i]) == Some(e),
    decreases edges.len(),
{
    let rest = edges.drop_last();
    let all = pairs_of(edges);
    if ends_of(edges.last()) == Some(e) {
        edges.len() - 1
    } else {
        let k = choose|k: int| 0 <= k < all.len() && all[k] == e;
        assert(pairs_of(rest)[k] == e);
        lemma_pair_of_edge(rest, e)
    }
}

/// No walk is longer than the depth of the node it ends at.
proof fn lemma_walk_is_no_longer(nodes: Seq<JsonView>, edges: Seq<JsonView>, p: Seq<Text>)
    requires
        distinct(ids_of(nodes)),
        !cyclic(ids_of(nodes), pairs_of(edges)),
        is_walk(ids_of(nodes), pairs_of(edges), p),
    ensures
        p.len() - 1 <= depths_of(nodes, edges)[p.last()],
    decreases p.len(),
{
    let d = depths_of(nodes, edges);
    lemma_relaxed_witnessed(nodes, edges, passes(nodes));
    assert(ids_of(nodes).to_set().contains(p.last()));
    assert(d.contains_key(p.last()));
    if p.len() > 1 {
        let init = p.drop_last();
        let f = p[p.len() - 2];
        assert(init.last() == f);
        lemma_walk_is_no_longer(nodes, edges, init);
        let i = lemma_pair_of_edge(edges, (f, p.last()));
        law_edges_lead_right(nodes, edges, i);
    } else {
        let q = choose|q: Seq<Text>| leads_to(ids_of(nodes), pairs_of(edges), q, p.last(), d[p.last()]);
        assert(q.len() > 0);
    }
}

/// In a flow without a cycle the depth of a node is the number of edges of the longest walk that
/// ends at it: there is a walk of that many edges, and none of more.
pub proof fn law_depths_are_longest_walks(nodes: Seq<JsonView>, edges: Seq<JsonView>, x: Text)
    requires
        distinct(ids_of(nodes)),
        !cyclic(ids_of(nodes), pairs_of(edges)),
        ids_of(nodes).contains(x),
    ensures
        exists|p: Seq<Text>| leads_to(ids_of(nodes), pairs_of(edges), p, x, depths_of(nodes, edges)[x]),
        forall|p: Seq<Text>, n: int| #[trigger] leads_to(ids_of(nodes), pairs_of(edges), p, x, n) ==> n <= depths_of(nodes, edges)[x],
{
    let d = depths_of(nodes, edges);
    lemma_relaxed_witnessed(nodes, edges, passes(nodes));
    assert(ids_of(nodes).to_set().contains(x));
    assert(d.contains_key(x));
    assert forall|p: Seq<Text>, n: int| #[trigger] leads_to(ids_of(nodes), pairs_of(edges), p, x, n) implies n <= d[x] by {
        lemma_walk_is_no_longer(nodes, edges, p);
    }
}

proof fn lemma_rows_grow(nodes: Seq<JsonView>, depths: Map<Text, int>, d: int, i: int, j: int)
    requires
        0 <= i < j <= nodes.len(),
        !positioned(nodes[i]),
        depth_of(depths, nodes[i]) == d,
    ensures
        row_of(nodes.take(i), depths, d) < row_of(nodes.take(j), depths, d),
    decreases j - i,
{
    assert(nodes.take(j).drop_last() =~= nodes.take(j - 1));
    assert(nodes.take(j).last() == nodes[j - 1]);
    if i < j - 1 {
        lemma_rows_grow(nodes, depths, d, i, j - 1);
    }
}

proof fn lemma_depth_is_no_less_than_zero(nodes: Seq<JsonView>, edges: Seq<JsonView>, n: JsonView)
    ensures
        depth_of(depths_of(nodes, edges), n) >= 0,
{
    let d = depths_of(nodes, edges);
    lemma_relaxed_witnessed(nodes, edges, passes(nodes));
    if d.contains_key(id_of(n)) {
        let p = choose|p: Seq<Text>| leads_to(ids_of(nodes), pairs_of(edges), p, id_of(n), d[id_of(n)]);
        assert(p.len() > 0);
    }
}

proof fn lemma_place_reads_back(n: JsonView, d: int, row: nat)
    requires
        n is Object,
    ensures
        part(placed_at(n, d, row), "x"@) == JsonView::Number(decimal((40 + 300 * d) as nat)),
        part(placed_at(n, d, row), "y"@) == JsonView::Number(decimal(40 + 170 * row)),
{
    let o = n->Object_0;
    let x = JsonView::Number(decimal((40 + 300 * d) as nat));
    let y = JsonView::Number(decimal(40 + 170 * row));
    reveal_strlit("x");
    reveal_strlit("y");
    assert("x"@[0] == 'x' && "y"@[0] == 'y');
    law_fields_read_back(o, "x"@, x, "y"@);
    law_fields_read_back(with_field(o, "x"@, x), "y"@, y, "x"@);
}

/// No two nodes that are given a place are given the same one, whatever the edges.
pub proof fn law_no_two_places_coincide(nodes: Seq<JsonView>, edges: Seq<JsonView>, i: int, j: int)
    requires
        0 <= i < j < nodes.len(),
        nodes[i] is Object,
        nodes[j] is Object,
        !positioned(nodes[i]),
        !positioned(nodes[j]),
    ensures
        ({
            let out = laid_out(nodes, depths_of(nodes, edges));
            part(out[i], "x"@) != part(out[j], "x"@) || part(out[i], "y"@) != part(out[j], "y"@)
        }),
{
    let ds = depths_of(nodes, edges);
    let out = laid_out(nodes, ds);
    let di = depth_of(ds, nodes[i]);
    let dj = depth_of(ds, nodes[j]);
    let ri = row_of(nodes.take(i), ds, di);
    let rj = row_of(nodes.take(j), ds, dj);
    lemma_depth_is_no_less_than_zero(nodes, edges, nodes[i]);
    lemma_depth_is_no_less_than_zero(nodes, edges, nodes[j]);
    lemma_place_reads_back(nodes[i], di, ri);
    lemma_place_reads_back(nodes[j], dj, rj);
    if part(out[i], "x"@) == part(out[j], "x"@) {
        if di != dj {
            lemma_decimal_injective((40 + 300 * di) as nat, (40 + 300 * dj) as nat);
        }
        lemma_rows_grow(nodes, ds, di, i, j);
        if part(out[i], "y"@) == part(out[j], "y"@) {
            lemma_decimal_injective(40 + 170 * ri, 40 + 170 * rj);
        }
    }
}

/// A node that has its place keeps it, and everything else that it is; one that has none is put at
/// the column of its depth and the row that is free there, and nothing else of it changes.
pub proof fn law_placing_changes_the_place_alone(nodes: Seq<JsonView>, depths: Map<Text, int>, i: int, other: Text)
    requires
        0 <= i < nodes.len(),
    ensures
        laid_out(nodes, depths).len() == nodes.len(),
        positioned(nodes[i]) ==> laid_out(nodes, depths)[i] == nodes[i],
        !positioned(nodes[i]) && nodes[i] is Object ==> {
            let after = laid_out(nodes, depths)[i];
            let d = depth_of(depths, nodes[i]);
            &&& part(after, "x"@) == JsonView::Number(decimal((40 + 300 * d) as nat))
            &&& part(after, "y"@) == JsonView::Number(decimal(40 + 170 * row_of(nodes.take(i), depths, d)))
            &&& other != "x"@ && other != "y"@ ==> part(after, other) == part(nodes[i], other)
        },
        !(nodes[i] is Object) ==> laid_out(nodes, depths)[i] == nodes[i],
{
    if nodes[i] is Object && !positioned(nodes[i]) {
        reveal_strlit("x");
        reveal_strlit("y");
        assert("x"@[0] == 'x' && "y"@[0] == 'y');
        let o = nodes[i]->Object_0;
        let d = depth_of(depths, nodes[i]);
        let x = JsonView::Number(decimal((40 + 300 * d) as nat));
        let y = JsonView::Number(decimal(40 + 170 * row_of(nodes.take(i), depths, d)));
        law_fields_read_back(o, "x"@, x, other);
        law_fields_read_back(with_field(o, "x"@, x), "y"@, y, "x"@);
        law_fields_read_back(with_field(o, "x"@, x), "y"@, y, other);
    }
}

/// The rows of a column fill from the top: the row of a node is the number of nodes before it that
/// were put into the same column.
pub proof fn law_rows_fill_from_the_top(nodes: Seq<JsonView>, depths: Map<Text, int>, d: int, n: JsonView)
    ensures
        row_of(Seq::<JsonView>::empty(), depths, d) == 0,
        !positioned(n) && depth_of(depths, n) == d ==> row_of(nodes.push(n), depths, d) == row_of(nodes, depths, d) + 1,
        positioned(n) || depth_of(depths, n) != d ==> row_of(nodes.push(n), depths, d) == row_of(nodes, depths, d),
{
    assert(nodes.push(n).drop_last() =~= nodes);
}

/// A node has a place of its own where both of its coordinates are numbers.
pub proof fn law_places_take_two_numbers(n: JsonView)
    ensures
        part(n, "x"@) is Number && part(n, "y"@) is Number ==> positioned(n),
        !(part(n, "x"@) is Number) || !(part(n, "y"@) is Number) ==> !positioned(n),
{
}

}
