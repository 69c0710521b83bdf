//! Node and edge collections of a lineage graph: nodes keep the first entry
//! given for an id and are ordered by kind, then id; edges form a set
//! ordered field by field.
use vstd::prelude::*;
use crate::json::{JAtom, flat_obj, chars_lt, str_order, lemma_chars_lt_trans, lemma_chars_lt_total,
    lemma_chars_lt_irreflexive, lemma_chars_lt_asym};
use crate::lineage::{LineageNodeV1, LineageEdgeV1, LineageEdgeV2};
use crate::text::str_eq;

verus! {

/// What a node is: kind, id, label, and its metadata as flat entries.
pub type NodeView = (Seq<char>, Seq<char>, Seq<char>, Option<Seq<(Seq<char>, JAtom)>>);

/// What an edge is: from, to, relation, evidence.
pub type EdgeView = (Seq<char>, Seq<char>, Seq<char>, Seq<char>);

pub open spec fn node_view(n: LineageNodeV1) -> NodeView {
    (n.kind@, n.node_id@, n.label@, flat_obj(n.metadata))
}

pub open spec fn node_views(s: Seq<LineageNodeV1>) -> Seq<NodeView> {
    s.map_values(|n: LineageNodeV1| node_view(n))
}

pub open spec fn edge_view(e: LineageEdgeV1) -> EdgeView {
    (e.from_node_id@, e.to_node_id@, e.relation@, e.evidence@)
}

pub open spec fn edge_views(s: Seq<LineageEdgeV1>) -> Seq<EdgeView> {
    s.map_values(|e: LineageEdgeV1| edge_view(e))
}

/// Nodes are ordered by kind, then by id.
pub open spec fn node_lt(a: NodeView, b: NodeView) -> bool {
    chars_lt(a.0, b.0) || (a.0 == b.0 && chars_lt(a.1, b.1))
}

pub open spec fn nodes_sorted(s: Seq<NodeView>) -> bool {
    forall|p: int, q: int| 0 <= p < q < s.len() ==> node_lt(#[trigger] s[p], #[trigger] s[q])
}

pub open spec fn ids_unique(s: Seq<NodeView>) -> bool {
    forall|p: int, q: int| 0 <= p < q < s.len() ==> (#[trigger] s[p]).1 != (#[trigger] s[q]).1
}

/// No node given before position `i` has the id of the one at `i`.
pub open spec fn first_with_id(adds: Seq<NodeView>, i: int) -> bool {
    forall|k: int| 0 <= k < i ==> (#[trigger] adds[k]).1 != adds[i].1
}

/// `v` is among `adds`, as the first node given with its id.
pub open spec fn given_first(adds: Seq<NodeView>, v: NodeView) -> bool {
    exists|i: int| 0 <= i < adds.len() && #[trigger] adds[i] == v && first_with_id(adds, i)
}

/// Some node of `r` has the id `id`.
pub open spec fn has_id(r: Seq<NodeView>, id: Seq<char>) -> bool {
    exists|j: int| 0 <= j < r.len() && (#[trigger] r[j]).1 == id
}

/// `r` holds, for each id among `adds`, the first node given with it, in
/// node order.
pub open spec fn nodes_collected(r: Seq<NodeView>, adds: Seq<NodeView>) -> bool {
    &&& nodes_sorted(r)
    &&& ids_unique(r)
    &&& forall|j: int| 0 <= j < r.len() ==> given_first(adds, #[trigger] r[j])
    &&& forall|i: int| 0 <= i < adds.len() ==> has_id(r, (#[trigger] adds[i]).1)
}

/// Edges are ordered field by field.
pub open spec fn edge_lt(a: EdgeView, b: EdgeView) -> bool {
    ||| chars_lt(a.0, b.0)
    ||| a.0 == b.0 && chars_lt(a.1, b.1)
    ||| a.0 == b.0 && a.1 == b.1 && chars_lt(a.2, b.2)
    ||| a.0 == b.0 && a.1 == b.1 && a.2 == b.2 && chars_lt(a.3, b.3)
}

pub open spec fn edges_sorted(s: Seq<EdgeView>) -> bool {
    forall|p: int, q: int| 0 <= p < q < s.len() ==> edge_lt(#[trigger] s[p], #[trigger] s[q])
}

/// `r` is the set of edges among `adds`, in edge order.
pub open spec fn edges_collected(r: Seq<EdgeView>, adds: Seq<EdgeView>) -> bool {
    &&& edges_sorted(r)
    &&& forall|j: int| 0 <= j < r.len() ==> adds.contains(#[trigger] r[j])
    &&& forall|i: int| 0 <= i < adds.len() ==> r.contains(#[trigger] adds[i])
}

pub proof fn lemma_node_lt_order(a: NodeView, b: NodeView, c: NodeView)
    ensures
        !node_lt(a, a),
        node_lt(a, b) && node_lt(b, c) ==> node_lt(a, c),
        (a.0 != b.0 || a.1 != b.1) ==> node_lt(a, b) || node_lt(b, a),
        node_lt(a, b) ==> !node_lt(b, a),
{
    lemma_chars_lt_irreflexive(a.0);
    lemma_chars_lt_irreflexive(a.1);
    lemma_chars_lt_total(a.0, b.0);
    lemma_chars_lt_total(a.1, b.1);
    if chars_lt(a.0, b.0) && chars_lt(b.0, c.0) {
        lemma_chars_lt_trans(a.0, b.0, c.0);
    }
    if chars_lt(a.1, b.1) && chars_lt(b.1, c.1) {
        lemma_chars_lt_trans(a.1, b.1, c.1);
    }
    if chars_lt(a.0, b.0) {
        lemma_chars_lt_asym(a.0, b.0);
    }
    if chars_lt(a.1, b.1) {
        lemma_chars_lt_asym(a.1, b.1);
    }
}

pub proof fn lemma_edge_lt_order(a: EdgeView, b: EdgeView, c: EdgeView)
    ensures
        !edge_lt(a, a),
        edge_lt(a, b) && edge_lt(b, c) ==> edge_lt(a, c),
        a != b ==> edge_lt(a, b) || edge_lt(b, a),
        edge_lt(a, b) ==> !edge_lt(b, a),
{
    lemma_chars_lt_irreflexive(a.0);
    lemma_chars_lt_irreflexive(a.1);
    lemma_chars_lt_irreflexive(a.2);
    lemma_chars_lt_irreflexive(a.3);
    lemma_chars_lt_total(a.0, b.0);
    lemma_chars_lt_total(a.1, b.1);
    lemma_chars_lt_total(a.2, b.2);
    lemma_chars_lt_total(a.3, b.3);
    if chars_lt(a.0, b.0) && chars_lt(b.0, c.0) {
        lemma_chars_lt_trans(a.0, b.0, c.0);
    }
    if chars_lt(a.1, b.1) && chars_lt(b.1, c.1) {
        lemma_chars_lt_trans(a.1, b.1, c.1);
    }
    if chars_lt(a.2, b.2) && chars_lt(b.2, c.2) {
        lemma_chars_lt_trans(a.2, b.2, c.2);
    }
    if chars_lt(a.3, b.3) && chars_lt(b.3, c.3) {
        lemma_chars_lt_trans(a.3, b.3, c.3);
    }
    if chars_lt(a.0, b.0) {
        lemma_chars_lt_asym(a.0, b.0);
    }
    if chars_lt(a.1, b.1) {
        lemma_chars_lt_asym(a.1, b.1);
    }
    if chars_lt(a.2, b.2) {
        lemma_chars_lt_asym(a.2, b.2);
    }
    if chars_lt(a.3, b.3) {
        lemma_chars_lt_asym(a.3, b.3);
    }
}

/// Whether node `a` sorts before node `b`.
pub fn node_less(a: &LineageNodeV1, b: &LineageNodeV1) -> (r: bool)
    ensures
        r == node_lt(node_view(*a), node_view(*b)),
{
    let k = str_order(a.kind.as_str(), b.kind.as_str());
    if k != 0 {
        return k < 0;
    }
    str_order(a.node_id.as_str(), b.node_id.as_str()) < 0
}

/// Whether edge `a` sorts before edge `b`.
pub fn edge_less(a: &LineageEdgeV1, b: &LineageEdgeV1) -> (r: bool)
    ensures
        r == edge_lt(edge_view(*a), edge_view(*b)),
{
    let k = str_order(a.from_node_id.as_str(), b.from_node_id.as_str());
    if k != 0 {
        return k < 0;
    }
    let k = str_order(a.to_node_id.as_str(), b.to_node_id.as_str());
    if k != 0 {
        return k < 0;
    }
    let k = str_order(a.relation.as_str(), b.relation.as_str());
    if k != 0 {
        return k < 0;
    }
    str_order(a.evidence.as_str(), b.evidence.as_str()) < 0
}

/// Whether two edges are the same.
pub fn edge_same(a: &LineageEdgeV1, b: &LineageEdgeV1) -> (r: bool)
    ensures
        r == (edge_view(*a) == edge_view(*b)),
{
    str_eq(a.from_node_id.as_str(), b.from_node_id.as_str()) && str_eq(a.to_node_id.as_str(), b.to_node_id.as_str())
        && str_eq(a.relation.as_str(), b.relation.as_str()) && str_eq(a.evidence.as_str(), b.evidence.as_str())
}

proof fn lemma_nodes_insert_sorted(s: Seq<NodeView>, p: int, x: NodeView)
    requires
        nodes_sorted(s),
        ids_unique(s),
        0 <= p <= s.len(),
        forall|q: int| 0 <= q < p ==> node_lt(#[trigger] s[q], x),
        p < s.len() ==> !node_lt(s[p], x),
        forall|q: int| 0 <= q < s.len() ==> (#[trigger] s[q]).1 != x.1,
    ensures
        nodes_sorted(s.insert(p, x)),
        ids_unique(s.insert(p, x)),
{
    let t = s.insert(p, x);
    if p < s.len() {
        lemma_node_lt_order(x, s[p], x);
    }
    assert forall|a: int, b: int| 0 <= a < b < t.len() implies node_lt(#[trigger] t[a], #[trigger] t[b]) by {
        if b < p {
            assert(t[a] == s[a] && t[b] == s[b]);
        } else if b == p {
            assert(t[a] == s[a]);
        } else if a < p {
            assert(t[a] == s[a] && t[b] == s[b - 1]);
            lemma_node_lt_order(s[a], x, s[b - 1]);
        } else if a == p {
            assert(t[b] == s[b - 1]);
            if b - 1 > p {
                lemma_node_lt_order(x, s[p], s[b - 1]);
            }
        } else {
            assert(t[a] == s[a - 1] && t[b] == s[b - 1]);
        }
    }
    assert forall|a: int, b: int| 0 <= a < b < t.len() implies (#[trigger] t[a]).1 != (#[trigger] t[b]).1 by {
        if b < p {
            assert(t[a] == s[a] && t[b] == s[b]);
        } else if b == p {
            assert(t[a] == s[a]);
        } else if a < p {
            assert(t[a] == s[a] && t[b] == s[b - 1]);
        } else if a == p {
            assert(t[b] == s[b - 1]);
        } else {
            assert(t[a] == s[a - 1] && t[b] == s[b - 1]);
        }
    }
}

/// Adds a node unless one with its id is already there, keeping the order.
pub fn insert_node(nodes: &mut Vec<LineageNodeV1>, n: LineageNodeV1)
    requires
        nodes_sorted(node_views(old(nodes)@)),
        ids_unique(node_views(old(nodes)@)),
    ensures
        nodes_sorted(node_views(final(nodes)@)),
        ids_unique(node_views(final(nodes)@)),
        has_id(node_views(old(nodes)@), node_view(n).1) ==> node_views(final(nodes)@) == node_views(old(nodes)@),
        !has_id(node_views(old(nodes)@), node_view(n).1) ==> exists|p: int| 0 <= p <= old(nodes)@.len() && node_views(final(nodes)@) == node_views(old(nodes)@).insert(p, node_view(n)),
{
    let ghost s = node_views(nodes@);
    let mut i: usize = 0;
    while i < nodes.len()
        invariant
            s == node_views(nodes@),
            nodes_sorted(s),
            ids_unique(s),
            i <= nodes@.len(),
            forall|q: int| 0 <= q < i ==> (#[trigger] s[q]).1 != node_view(n).1,
        decreases nodes.len() - i,
    {
        if str_eq(nodes[i].node_id.as_str(), n.node_id.as_str()) {
            assert(s[i as int].1 == node_view(n).1);
            return;
        }
        i = i + 1;
    }
    let mut p: usize = 0;
    while p < nodes.len() && node_less(&nodes[p], &n)
        invariant
            s == node_views(nodes@),
            p <= nodes@.len(),
            forall|q: int| 0 <= q < p ==> node_lt(#[trigger] s[q], node_view(n)),
        decreases nodes.len() - p,
    {
        p = p + 1;
    }
    proof {
        lemma_nodes_insert_sorted(s, p as int, node_view(n));
    }
    nodes.insert(p, n);
    proof {
        assert(node_views(nodes@) =~= s.insert(p as int, node_view(n)));
    }
}

proof fn lemma_collect_present(r: Seq<NodeView>, a: Seq<NodeView>, x: NodeView)
    requires
        nodes_collected(r, a),
        has_id(r, x.1),
    ensures
        nodes_collected(r, a.push(x)),
{
    let b = a.push(x);
    assert forall|j: int| 0 <= j < r.len() implies given_first(b, #[trigger] r[j]) by {
        assert(given_first(a, r[j]));
        let i = choose|i: int| 0 <= i < a.len() && #[trigger] a[i] == r[j] && first_with_id(a, i);
        assert(b[i] == r[j]);
        assert forall|k: int| 0 <= k < i implies (#[trigger] b[k]).1 != b[i].1 by {
            assert(b[k] == a[k]);
        }
    }
    assert forall|i: int| 0 <= i < b.len() implies has_id(r, (#[trigger] b[i]).1) by {
        if i < a.len() {
            assert(b[i] == a[i]);
        } else {
            assert(b[i] == x);
        }
    }
}

proof fn lemma_collect_absent(r: Seq<NodeView>, a: Seq<NodeView>, x: NodeView, p: int)
    requires
        nodes_collected(r, a),
        nodes_sorted(r.insert(p, x)),
        ids_unique(r.insert(p, x)),
        0 <= p <= r.len(),
        !has_id(r, x.1),
    ensures
        nodes_collected(r.insert(p, x), a.push(x)),
{
    let b = a.push(x);
    let r2 = r.insert(p, x);
    assert forall|k: int| 0 <= k < a.len() implies (#[trigger] a[k]).1 != x.1 by {
        assert(has_id(r, a[k].1));
    }
    assert forall|j: int| 0 <= j < r2.len() implies given_first(b, #[trigger] r2[j]) by {
        if j == p {
            let i = a.len() as int;
            assert(b[i] == r2[j]);
            assert forall|k: int| 0 <= k < i implies (#[trigger] b[k]).1 != b[i].1 by {
                assert(b[k] == a[k]);
            }
        } else {
            let jj = if j < p { j } else { j - 1 };
            assert(r2[j] == r[jj]);
            assert(given_first(a, r[jj]));
            let i = choose|i: int| 0 <= i < a.len() && #[trigger] a[i] == r[jj] && first_with_id(a, i);
            assert(b[i] == r2[j]);
            assert forall|k: int| 0 <= k < i implies (#[trigger] b[k]).1 != b[i].1 by {
                assert(b[k] == a[k]);
            }
        }
    }
    assert forall|i: int| 0 <= i < b.len() implies has_id(r2, (#[trigger] b[i]).1) by {
        if i < a.len() {
            assert(b[i] == a[i]);
            assert(has_id(r, a[i].1));
            let j = choose|j: int| 0 <= j < r.len() && (#[trigger] r[j]).1 == a[i].1;
            if j < p {
                assert(r2[j] == r[j]);
            } else {
                assert(r2[j + 1] == r[j]);
            }
        } else {
            assert(b[i] == x);
            assert(r2[p] == x);
        }
    }
}

proof fn lemma_collect_step(r: Seq<NodeView>, r2: Seq<NodeView>, a: Seq<NodeView>, x: NodeView)
    requires
        nodes_collected(r, a),
        nodes_sorted(r2),
        ids_unique(r2),
        has_id(r, x.1) ==> r2 == r,
        !has_id(r, x.1) ==> exists|p: int| 0 <= p <= r.len() && r2 == r.insert(p, x),
    ensures
        nodes_collected(r2, a.push(x)),
{
    if has_id(r, x.1) {
        lemma_collect_present(r, a, x);
    } else {
        let p = choose|p: int| 0 <= p <= r.len() && r2 == r.insert(p, x);
        lemma_collect_absent(r, a, x, p);
    }
}

/// Collects nodes given in order: for each id the first node given with it
/// is kept, and the nodes come out ordered by kind, then id.
pub fn collect_nodes(adds: Vec<LineageNodeV1>) -> (r: Vec<LineageNodeV1>)
    ensures
        nodes_collected(node_views(r@), node_views(adds@)),
{
    let ghost all = node_views(adds@);
    let mut rest = adds;
    let mut out: Vec<LineageNodeV1> = Vec::new();
    let ghost mut i: int = 0;
    proof {
        assert(all.take(0) =~= Seq::<NodeView>::empty());
    }
    while rest.len() > 0
        invariant
            0 <= i <= all.len(),
            node_views(rest@) == all.skip(i),
            nodes_collected(node_views(out@), all.take(i)),
        decreases rest.len(),
    {
        let ghost old_rest = rest@;
        let n = rest.remove(0);
        let ghost before = node_views(out@);
        proof {
            assert(old_rest.len() > 0);
            assert(node_views(old_rest) == all.skip(i));
            assert(node_views(old_rest).len() == old_rest.len());
            assert(i < all.len());
            assert(node_views(old_rest)[0] == node_view(n));
            assert(all[i] == all.skip(i)[0]);
            assert(rest@ == old_rest.remove(0));
            assert forall|k: int| 0 <= k < rest@.len() implies #[trigger] node_views(rest@)[k] == all.skip(i + 1)[k] by {
                assert(rest@[k] == old_rest[k + 1]);
                assert(node_views(old_rest)[k + 1] == all.skip(i)[k + 1]);
                assert(all.skip(i + 1)[k] == all.skip(i)[k + 1]);
            }
            assert(node_views(rest@) =~= all.skip(i + 1));
        }
        insert_node(&mut out, n);
        proof {
            lemma_collect_step(before, node_views(out@), all.take(i), node_view(n));
            assert(all.take(i).push(node_view(n)) =~= all.take(i + 1));
            i = i + 1;
        }
    }
    proof {
        assert(all.take(i) =~= all);
    }
    out
}

proof fn lemma_edges_insert_sorted(s: Seq<EdgeView>, p: int, x: EdgeView)
    requires
        edges_sorted(s),
        0 <= p <= s.len(),
        forall|q: int| 0 <= q < p ==> edge_lt(#[trigger] s[q], x),
        p < s.len() ==> !edge_lt(s[p], x),
        !s.contains(x),
    ensures
        edges_sorted(s.insert(p, x)),
{
    let t = s.insert(p, x);
    if p < s.len() {
        lemma_edge_lt_order(x, s[p], x);
    }
    assert forall|a: int, b: int| 0 <= a < b < t.len() implies edge_lt(#[trigger] t[a], #[trigger] t[b]) by {
        if b < p {
            assert(t[a] == s[a] && t[b] == s[b]);
        } else if b == p {
            assert(t[a] == s[a]);
        } else if a < p {
            assert(t[a] == s[a] && t[b] == s[b - 1]);
            lemma_edge_lt_order(s[a], x, s[b - 1]);
        } else if a == p {
            assert(t[b] == s[b - 1]);
            if b - 1 > p {
                lemma_edge_lt_order(x, s[p], s[b - 1]);
            }
        } else {
            assert(t[a] == s[a - 1] && t[b] == s[b - 1]);
        }
    }
}

/// Adds an edge unless it is already there, keeping the order.
pub fn insert_edge(edges: &mut Vec<LineageEdgeV1>, e: LineageEdgeV1)
    requires
        edges_sorted(edge_views(old(edges)@)),
    ensures
        edges_sorted(edge_views(final(edges)@)),
        edge_views(old(edges)@).contains(edge_view(e)) ==> edge_views(final(edges)@) == edge_views(old(edges)@),
        !edge_views(old(edges)@).contains(edge_view(e)) ==> exists|p: int| 0 <= p <= old(edges)@.len()
            && edge_views(final(edges)@) == edge_views(old(edges)@).insert(p, edge_view(e)),
{
    let ghost s = edge_views(edges@);
    let mut i: usize = 0;
    while i < edges.len()
        invariant
            s == edge_views(edges@),
            edges_sorted(s),
            i <= edges@.len(),
            forall|q: int| 0 <= q < i ==> #[trigger] s[q] != edge_view(e),
        decreases edges.len() - i,
    {
        if edge_same(&edges[i], &e) {
            assert(s[i as int] == edge_view(e));
            return;
        }
        i = i + 1;
    }
    let mut p: usize = 0;
    while p < edges.len() && edge_less(&edges[p], &e)
        invariant
            s == edge_views(edges@),
            p <= edges@.len(),
            forall|q: int| 0 <= q < p ==> edge_lt(#[trigger] s[q], edge_view(e)),
        decreases edges.len() - p,
    {
        p = p + 1;
    }
    proof {
        lemma_edges_insert_sorted(s, p as int, edge_view(e));
    }
    edges.insert(p, e);
    proof {
        assert(edge_views(edges@) =~= s.insert(p as int, edge_view(e)));
    }
}

proof fn lemma_edge_collect_step(r: Seq<EdgeView>, r2: Seq<EdgeView>, a: Seq<EdgeView>, x: EdgeView)
    requires
        edges_collected(r, a),
        edges_sorted(r2),
        r.contains(x) ==> r2 == r,
        !r.contains(x) ==> exists|p: int| 0 <= p <= r.len() && r2 == r.insert(p, x),
    ensures
        edges_collected(r2, a.push(x)),
{
    let b = a.push(x);
    assert forall|k: int| 0 <= k < a.len() implies #[trigger] b[k] == a[k] by {}
    if r.contains(x) {
        assert forall|j: int| 0 <= j < r2.len() implies b.contains(#[trigger] r2[j]) by {
            let i = choose|i: int| 0 <= i < a.len() && a[i] == r[j];
            assert(b[i] == r2[j]);
        }
        assert forall|i: int| 0 <= i < b.len() implies r2.contains(#[trigger] b[i]) by {
            if i < a.len() {
                assert(r.contains(a[i]));
            }
        }
    } else {
        let p = choose|p: int| 0 <= p <= r.len() && r2 == r.insert(p, x);
        assert forall|j: int| 0 <= j < r2.len() implies b.contains(#[trigger] r2[j]) by {
            if j == p {
                assert(b[a.len() as int] == r2[j]);
            } else {
                let jj = if j < p { j } else { j - 1 };
                assert(r2[j] == r[jj]);
                assert(a.contains(r[jj]));
                let i = choose|i: int| 0 <= i < a.len() && a[i] == r[jj];
                assert(b[i] == r2[j]);
            }
        }
        assert forall|i: int| 0 <= i < b.len() implies r2.contains(#[trigger] b[i]) by {
            if i < a.len() {
                assert(r.contains(a[i]));
                let j = choose|j: int| 0 <= j < r.len() && r[j] == a[i];
                if j < p {
                    assert(r2[j] == r[j]);
                } else {
                    assert(r2[j + 1] == r[j]);
                }
            } else {
                assert(r2[p] == x);
            }
        }
    }
}

/// Collects edges given in order into a set, ordered field by field.
pub fn collect_edges(adds: Vec<LineageEdgeV1>) -> (r: Vec<LineageEdgeV1>)
    ensures
        edges_collected(edge_views(r@), edge_views(adds@)),
{
    let ghost all = edge_views(adds@);
    let mut rest = adds;
    let mut out: Vec<LineageEdgeV1> = Vec::new();
    let ghost mut i: int = 0;
    proof {
        assert(all.take(0) =~= Seq::<EdgeView>::empty());
    }
    while rest.len() > 0
        invariant
            0 <= i <= all.len(),
            edge_views(rest@) == all.skip(i),
            edges_collected(edge_views(out@), all.take(i)),
        decreases rest.len(),
    {
        let ghost old_rest = rest@;
        let e = rest.remove(0);
        let ghost before = edge_views(out@);
        proof {
            assert(old_rest.len() > 0);
            assert(edge_views(old_rest) == all.skip(i));
            assert(edge_views(old_rest).len() == old_rest.len());
            assert(i < all.len());
            assert(edge_views(old_rest)[0] == edge_view(e));
            assert(all[i] == all.skip(i)[0]);
            assert(rest@ == old_rest.remove(0));
            assert forall|k: int| 0 <= k < rest@.len() implies #[trigger] edge_views(rest@)[k] == all.skip(i + 1)[k] by {
                assert(rest@[k] == old_rest[k + 1]);
                assert(edge_views(old_rest)[k + 1] == all.skip(i)[k + 1]);
                assert(all.skip(i + 1)[k] == all.skip(i)[k + 1]);
            }
            assert(edge_views(rest@) =~= all.skip(i + 1));
        }
        insert_edge(&mut out, e);
        proof {
            lemma_edge_collect_step(before, edge_views(out@), all.take(i), edge_view(e));
            assert(all.take(i).push(edge_view(e)) =~= all.take(i + 1));
            i = i + 1;
        }
    }
    proof {
        assert(all.take(i) =~= all);
    }
    out
}

/// What a merged edge is: from, to, relation, evidence, origin.
pub type Edge2View = (Seq<char>, Seq<char>, Seq<char>, Seq<char>, Seq<char>);

pub open spec fn edge2_view(e: LineageEdgeV2) -> Edge2View {
    (e.from_node_id@, e.to_node_id@, e.relation@, e.evidence@, e.origin@)
}

pub open spec fn edge2_views(s: Seq<LineageEdgeV2>) -> Seq<Edge2View> {
    s.map_values(|e: LineageEdgeV2| edge2_view(e))
}

/// Merged edges are ordered field by field.
pub open spec fn edge2_lt(a: Edge2View, b: Edge2View) -> bool {
    ||| edge_lt((a.0, a.1, a.2, a.3), (b.0, b.1, b.2, b.3))
    ||| a.0 == b.0 && a.1 == b.1 && a.2 == b.2 && a.3 == b.3 && chars_lt(a.4, b.4)
}

/// In order, equal edges side by side.
pub open spec fn edges2_sorted(s: Seq<Edge2View>) -> bool {
    forall|p: int, q: int| 0 <= p < q < s.len() ==> !edge2_lt(#[trigger] s[q], #[trigger] s[p])
}

pub proof fn lemma_edge2_lt_order(a: Edge2View, b: Edge2View, c: Edge2View)
    ensures
        !edge2_lt(a, a),
        edge2_lt(a, b) && edge2_lt(b, c) ==> edge2_lt(a, c),
        a != b ==> edge2_lt(a, b) || edge2_lt(b, a),
        edge2_lt(a, b) ==> !edge2_lt(b, a),
{
    lemma_edge_lt_order((a.0, a.1, a.2, a.3), (b.0, b.1, b.2, b.3), (c.0, c.1, c.2, c.3));
    lemma_edge_lt_order((b.0, b.1, b.2, b.3), (a.0, a.1, a.2, a.3), (c.0, c.1, c.2, c.3));
    lemma_edge_lt_order((a.0, a.1, a.2, a.3), (c.0, c.1, c.2, c.3), (b.0, b.1, b.2, b.3));
    lemma_chars_lt_irreflexive(a.4);
    lemma_chars_lt_total(a.4, b.4);
    if chars_lt(a.4, b.4) && chars_lt(b.4, c.4) {
        lemma_chars_lt_trans(a.4, b.4, c.4);
    }
    if chars_lt(a.4, b.4) {
        lemma_chars_lt_asym(a.4, b.4);
    }
}

/// Whether merged edge `a` sorts before merged edge `b`.
pub fn edge2_less(a: &LineageEdgeV2, b: &LineageEdgeV2) -> (r: bool)
    ensures
        r == edge2_lt(edge2_view(*a), edge2_view(*b)),
{
    let k = str_order(a.from_node_id.as_str(), b.from_node_id.as_str());
    if k != 0 {
        return k < 0;
    }
    let k = str_order(a.to_node_id.as_str(), b.to_node_id.as_str());
    if k != 0 {
        return k < 0;
    }
    let k = str_order(a.relation.as_str(), b.relation.as_str());
    if k != 0 {
        return k < 0;
    }
    let k = str_order(a.evidence.as_str(), b.evidence.as_str());
    if k != 0 {
        return k < 0;
    }
    str_order(a.origin.as_str(), b.origin.as_str()) < 0
}

proof fn lemma_edges2_insert_sorted(s: Seq<Edge2View>, p: int, x: Edge2View)
    requires
        edges2_sorted(s),
        0 <= p <= s.len(),
        forall|q: int| 0 <= q < p ==> !edge2_lt(x, #[trigger] s[q]),
        p < s.len() ==> edge2_lt(x, s[p]),
    ensures
        edges2_sorted(s.insert(p, x)),
{
    let t = s.insert(p, x);
    assert forall|a: int, b: int| 0 <= a < b < t.len() implies !edge2_lt(#[trigger] t[b], #[trigger] t[a]) by {
        if b < p {
            assert(t[a] == s[a] && t[b] == s[b]);
        } else if b == p {
            assert(t[a] == s[a]);
        } else if a < p {
            assert(t[a] == s[a] && t[b] == s[b - 1]);
            lemma_edge2_lt_order(s[b - 1], x, s[a]);
            lemma_edge2_lt_order(x, s[p], s[b - 1]);
            lemma_edge2_lt_order(s[p], s[b - 1], s[p]);
            lemma_edge2_lt_order(x, s[a], x);
            if b - 1 > p {
                assert(!edge2_lt(s[b - 1], s[p]));
            }
        } else if a == p {
            assert(t[b] == s[b - 1]);
            lemma_edge2_lt_order(x, s[p], s[b - 1]);
            lemma_edge2_lt_order(s[p], s[b - 1], s[p]);
            lemma_edge2_lt_order(x, s[b - 1], x);
            if b - 1 > p {
                assert(!edge2_lt(s[b - 1], s[p]));
            }
        } else {
            assert(t[a] == s[a - 1] && t[b] == s[b - 1]);
        }
    }
}

/// Adds a merged edge after those that do not sort after it.
pub fn insert_edge2(edges: &mut Vec<LineageEdgeV2>, e: LineageEdgeV2)
    requires
        edges2_sorted(edge2_views(old(edges)@)),
    ensures
        edges2_sorted(edge2_views(final(edges)@)),
        edge2_views(final(edges)@).to_multiset() == edge2_views(old(edges)@).to_multiset().insert(edge2_view(e)),
{
    let ghost s = edge2_views(edges@);
    let mut p: usize = 0;
    while p < edges.len() && !edge2_less(&e, &edges[p])
        invariant
            s == edge2_views(edges@),
            p <= edges@.len(),
            forall|q: int| 0 <= q < p ==> !edge2_lt(edge2_view(e), #[trigger] s[q]),
        decreases edges.len() - p,
    {
        p = p + 1;
    }
    proof {
        lemma_edges2_insert_sorted(s, p as int, edge2_view(e));
        vstd::seq_lib::to_multiset_insert(s, p as int, edge2_view(e));
    }
    edges.insert(p, e);
    proof {
        assert(edge2_views(edges@) =~= s.insert(p as int, edge2_view(e)));
    }
}

/// Sorts merged edges, keeping each one given.
pub fn sort_edges2(adds: Vec<LineageEdgeV2>) -> (r: Vec<LineageEdgeV2>)
    ensures
        edges2_sorted(edge2_views(r@)),
        edge2_views(r@).to_multiset() == edge2_views(adds@).to_multiset(),
{
    let ghost all = edge2_views(adds@);
    let mut rest = adds;
    let mut out: Vec<LineageEdgeV2> = Vec::new();
    let ghost mut i: int = 0;
    proof {
        assert(all.take(0) =~= Seq::<Edge2View>::empty());
        broadcast use vstd::seq_lib::group_to_multiset_ensures;
        assert(edge2_views(out@) =~= Seq::<Edge2View>::empty());
    }
    while rest.len() > 0
        invariant
            0 <= i <= all.len(),
            edge2_views(rest@) == all.skip(i),
            edges2_sorted(edge2_views(out@)),
            edge2_views(out@).to_multiset() == all.take(i).to_multiset(),
        decreases rest.len(),
    {
        let ghost old_rest = rest@;
        let e = rest.remove(0);
        proof {
            assert(old_rest.len() > 0);
            assert(edge2_views(old_rest) == all.skip(i));
            assert(edge2_views(old_rest).len() == old_rest.len());
            assert(i < all.len());
            assert(edge2_views(old_rest)[0] == edge2_view(e));
            assert(all[i] == all.skip(i)[0]);
            assert(rest@ == old_rest.remove(0));
            assert forall|k: int| 0 <= k < rest@.len() implies #[trigger] edge2_views(rest@)[k] == all.skip(i + 1)[k] by {
                assert(rest@[k] == old_rest[k + 1]);
                assert(edge2_views(old_rest)[k + 1] == all.skip(i)[k + 1]);
                assert(all.skip(i + 1)[k] == all.skip(i)[k + 1]);
            }
            assert(edge2_views(rest@) =~= all.skip(i + 1));
        }
        insert_edge2(&mut out, e);
        proof {
            assert(all.take(i).push(edge2_view(e)) =~= all.take(i + 1));
            vstd::seq_lib::to_multiset_build(all.take(i), edge2_view(e));
            i = i + 1;
        }
    }
    proof {
        assert(all.take(i) =~= all);
    }
    out
}

} // verus!
