//! Arrow dependency DAG check.
//!
//! The `blocks` relations of `index.yaml` (A → B: "A blocks B") must form
//! a DAG. Strongly connected components are found with petgraph's Tarjan
//! implementation: a component of more than one segment is a cycle, and a
//! one-segment component with an edge to itself is a segment that blocks
//! itself. Each is an error.

use vstd::prelude::*;

use petgraph::algo::tarjan_scc;
use petgraph::graph::Graph;
use petgraph::Directed;

use crate::checks::schema::index_yaml;
use crate::checks::{
    flat, lemma_flat_all, lemma_flat_contains, lemma_flat_forall, lemma_flat_len_count, lemma_flat_take, push_finding, views, Category, Check, CheckId, Finding,
    FindingView, Severity,
};
use crate::ids::SegmentId;
use crate::model::Segment;
use crate::paths::join;
use crate::order::{identity_key, insert_by, lemma_sort_by, lex_lt, ordered_by, sort_by, str_lt};
use crate::repo::LidRepo;
use crate::text::{cat, decimal, str_eq, usize_string};

verus! {

/// The DAG check.
pub struct DagCheck;

/// A path of one or more nodes along `edges`.
pub open spec fn is_walk(edges: Seq<(usize, usize)>, p: Seq<usize>) -> bool {
    &&& p.len() >= 1
    &&& forall|k: int| 0 <= k < p.len() - 1 ==> edges.contains((p[k], #[trigger] p[k + 1]))
}

/// `b` can be reached from `a` along `edges` (in zero or more steps).
pub open spec fn reaches(edges: Seq<(usize, usize)>, a: usize, b: usize) -> bool {
    exists|p: Seq<usize>| #[trigger] is_walk(edges, p) && p[0] == a && p.last() == b
}

/// Node `v` lies in some component of `s`.
pub open spec fn placed(s: Seq<Seq<usize>>, v: usize) -> bool {
    exists|i: int, j: int| 0 <= i < s.len() && 0 <= j < s[i].len() && #[trigger] s[i][j] == v
}

/// `s` lists the strongly connected components of the graph with nodes
/// `0..n` and the given edges, in reverse topological order: no component
/// empty, every node in exactly one component, nodes sharing a component
/// exactly when each reaches the other, and no edge from a component to a
/// later one.
pub open spec fn scc_decomposition(n: nat, edges: Seq<(usize, usize)>, s: Seq<Seq<usize>>) -> bool {
    &&& forall|i: int| 0 <= i < s.len() ==> (#[trigger] s[i]).len() > 0
    &&& forall|i: int, j: int| 0 <= i < s.len() && 0 <= j < s[i].len() ==> (#[trigger] s[i][j]) < n
    &&& forall|v: usize| v < n ==> #[trigger] placed(s, v)
    &&& forall|i1: int, j1: int, i2: int, j2: int|
        0 <= i1 < s.len() && 0 <= j1 < s[i1].len() && 0 <= i2 < s.len() && 0 <= j2 < s[i2].len() && #[trigger] s[i1][j1]
            == #[trigger] s[i2][j2] ==> i1 == i2 && j1 == j2
    &&& forall|i1: int, j1: int, i2: int, j2: int|
        0 <= i1 < s.len() && 0 <= j1 < s[i1].len() && 0 <= i2 < s.len() && 0 <= j2 < s[i2].len() ==> ((i1 == i2)
            == (reaches(edges, #[trigger] s[i1][j1], #[trigger] s[i2][j2]) && reaches(edges, s[i2][j2], s[i1][j1])))
    &&& forall|i1: int, j1: int, i2: int, j2: int|
        0 <= i1 < i2 < s.len() && 0 <= j1 < s[i1].len() && 0 <= j2 < s[i2].len() ==> !edges.contains(
            (#[trigger] s[i1][j1], #[trigger] s[i2][j2]),
        )
}

/// `tarjan_scc` on the graph with nodes `0..n` and the given edges: its
/// strongly connected components, in petgraph's output order.
pub uninterp spec fn tarjan_sccs(n: nat, edges: Seq<(usize, usize)>) -> Seq<Seq<usize>>;

/// `petgraph::algo::tarjan_scc` on the directed graph with nodes `0..n` and
/// the given edges, with each node index given back as a plain number.
///
/// Claimed, from petgraph's documentation: the result is the graph's
/// strongly connected components in reverse topological order (see
/// `scc_decomposition`). The order inside a component, and that the
/// recursion fits on the stack, are not stated.
#[verifier::external_body]
fn scc_wrapper(n: usize, edges: &Vec<(usize, usize)>) -> (r: Vec<Vec<usize>>)
    requires
        forall|k: int| 0 <= k < edges@.len() ==> (#[trigger] edges@[k]).0 < n && edges@[k].1 < n,
    ensures
        r@.map_values(|c: Vec<usize>| c@) == tarjan_sccs(n as nat, edges@),
        scc_decomposition(n as nat, edges@, r@.map_values(|c: Vec<usize>| c@)),
{
    let mut g: Graph<(), (), Directed, usize> = Graph::with_capacity(n, edges.len());
    for _ in 0..n {
        g.add_node(());
    }
    g.extend_with_edges(edges.iter().copied());
    tarjan_scc(&g).into_iter().map(|c| c.into_iter().map(|x| x.index()).collect()).collect()
}

/// Index of the first entry keyed `id`; -1 when none.
pub open spec fn key_index(arrows: Seq<(SegmentId, Segment)>, id: Seq<char>) -> int
    decreases arrows.len(),
{
    if arrows.len() == 0 {
        -1
    } else if key_index(arrows.drop_last(), id) != -1 {
        key_index(arrows.drop_last(), id)
    } else if arrows.last().0@ == id {
        arrows.len() - 1
    } else {
        -1
    }
}

/// Edges out of entry `k`: one per `blocks` target that is a known segment.
/// For each `blocks` entry of entry `k`, the edge to the entry it names,
/// or nothing when it names none.
pub open spec fn block_edge_parts(arrows: Seq<(SegmentId, Segment)>, k: int) -> Seq<Seq<(usize, usize)>> {
    Seq::new(
        arrows[k].1.blocks@.len(),
        |j: int|
            {
                let t = key_index(arrows, arrows[k].1.blocks@[j]@);
                if t == -1 {
                    Seq::empty()
                } else {
                    seq![(k as usize, t as usize)]
                }
            },
    )
}

/// The edges from entry `k` along its `blocks` list.
pub open spec fn block_edges(arrows: Seq<(SegmentId, Segment)>, k: int) -> Seq<(usize, usize)> {
    flat(block_edge_parts(arrows, k))
}

/// The `blocks` graph's edges, entry by entry.
pub open spec fn graph_edges(arrows: Seq<(SegmentId, Segment)>) -> Seq<(usize, usize)> {
    flat(Seq::new(arrows.len(), |k: int| block_edges(arrows, k)))
}

/// `x` placed into `s` before the first element greater than it.
pub open spec fn insert_sorted(s: Seq<Seq<char>>, x: Seq<char>) -> Seq<Seq<char>>
    decreases s.len(),
{
    if s.len() == 0 {
        seq![x]
    } else if lex_lt(x, s[0]) {
        seq![x] + s
    } else {
        seq![s[0]] + insert_sorted(s.drop_first(), x)
    }
}

/// `s` in ascending order.
pub open spec fn sorted_ids(s: Seq<Seq<char>>) -> Seq<Seq<char>>
    decreases s.len(),
{
    if s.len() == 0 {
        Seq::empty()
    } else {
        insert_sorted(sorted_ids(s.drop_last()), s.last())
    }
}

proof fn lemma_insert_sorted_by_identity(s: Seq<Seq<char>>, x: Seq<char>)
    ensures
        insert_sorted(s, x) == insert_by(s, x, identity_key()),
    decreases s.len(),
{
    if s.len() > 0 && !lex_lt(x, s[0]) {
        lemma_insert_sorted_by_identity(s.drop_first(), x);
    }
}

proof fn lemma_sorted_ids_by_identity(s: Seq<Seq<char>>)
    ensures
        sorted_ids(s) == sort_by(s, identity_key()),
    decreases s.len(),
{
    if s.len() > 0 {
        lemma_sorted_ids_by_identity(s.drop_last());
        lemma_insert_sorted_by_identity(sorted_ids(s.drop_last()), s.last());
    }
}

/// The members of a reported cycle are listed in ascending order, each
/// as often as it occurs.
pub proof fn law_cycle_members_sorted(ids: Seq<Seq<char>>)
    ensures
        ordered_by(sorted_ids(ids), identity_key()),
        sorted_ids(ids).to_multiset() == ids.to_multiset(),
{
    lemma_sorted_ids_by_identity(ids);
    lemma_sort_by(ids, identity_key());
}

/// `parts` separated by `sep`.
pub open spec fn join_str(parts: Seq<Seq<char>>, sep: Seq<char>) -> Seq<char>
    decreases parts.len(),
{
    if parts.len() == 0 {
        Seq::empty()
    } else if parts.len() == 1 {
        parts[0]
    } else {
        join_str(parts.drop_last(), sep) + sep + parts.last()
    }
}

/// A DAG finding at `<root>/docs/arrows/index.yaml`.
pub open spec fn dag_view(root: Seq<char>, message: Seq<char>, fix: Seq<char>) -> FindingView {
    FindingView {
        check: CheckId::Dag,
        severity: Severity::Error,
        category: Category::Dag,
        message,
        location: Some((index_yaml(root), None)),
        spec: None,
        remediation: Some(fix),
    }
}

/// Findings for one component, given the node labels.
pub open spec fn scc_findings(root: Seq<char>, ids: Seq<Seq<char>>, edges: Seq<(usize, usize)>, c: Seq<usize>) -> Seq<FindingView> {
    if c.len() == 1 {
        if edges.contains((c[0], c[0])) {
            let s = ids[c[0] as int];
            seq![
                dag_view(
                    root,
                    "segment `"@ + s + "` blocks itself — `blocks` must form a DAG"@,
                    "remove `"@ + s + "` from its own `blocks` list"@,
                ),
            ]
        } else {
            Seq::empty()
        }
    } else {
        let members = sorted_ids(c.map_values(|v: usize| ids[v as int]));
        seq![
            dag_view(
                root,
                "arrow dependency cycle: "@ + decimal(c.len()) + " segments form a cycle ("@ + join_str(
                    members,
                    " → "@,
                ) + ")"@,
                "remove one of the `blocks` edges among the listed segments to break the cycle"@,
            ),
        ]
    }
}

/// The node labels: the segment IDs in entry order.
pub open spec fn node_ids(arrows: Seq<(SegmentId, Segment)>) -> Seq<Seq<char>> {
    arrows.map_values(|e: (SegmentId, Segment)| e.0@)
}

/// Findings for the components `sccs` of the repository's `blocks` graph.
pub open spec fn dag_findings_from(repo: LidRepo, edges: Seq<(usize, usize)>, sccs: Seq<Seq<usize>>) -> Seq<FindingView> {
    flat(Seq::new(
        sccs.len(),
        |i: int| scc_findings(repo.root@, node_ids(repo.index.arrows@), edges, sccs[i]),
    ))
}

/// Findings of the DAG check.
pub open spec fn dag_findings(repo: LidRepo) -> Seq<FindingView> {
    let edges = graph_edges(repo.index.arrows@);
    dag_findings_from(repo, edges, tarjan_sccs(repo.index.arrows@.len(), edges))
}

/// `t` is the first index entry whose key is `name`.
pub open spec fn first_keyed(arrows: Seq<(SegmentId, Segment)>, t: int, name: Seq<char>) -> bool {
    &&& 0 <= t < arrows.len()
    &&& arrows[t].0@ == name
    &&& forall|q: int| 0 <= q < t ==> (#[trigger] arrows[q]).0@ != name
}

/// The graph the DAG check runs on has an edge from segment `k` to
/// segment `t` exactly when some entry of `k`'s `blocks` list names `t`
/// (the first index entry with that key): every known `blocks` target is
/// an edge, and there are no others.
pub proof fn law_dag_edges_are_blocks(arrows: Seq<(SegmentId, Segment)>)
    requires
        arrows.len() <= usize::MAX,
    ensures
        forall|k: int, j: int, t: int|
            0 <= k < arrows.len() && 0 <= j < arrows[k].1.blocks@.len() && first_keyed(
                arrows,
                t,
                #[trigger] arrows[k].1.blocks@[j]@,
            ) ==> #[trigger] graph_edges(arrows).contains((k as usize, t as usize)),
        forall|e: (usize, usize)|
            #[trigger] graph_edges(arrows).contains(e) ==> exists|k: int, j: int|
                0 <= k < arrows.len() && 0 <= j < arrows[k].1.blocks@.len() && k == e.0 && first_keyed(
                    arrows,
                    e.1 as int,
                    #[trigger] arrows[k].1.blocks@[j]@,
                ),
{
    let outer = Seq::new(arrows.len(), |k: int| block_edges(arrows, k));
    assert forall|k: int, j: int, t: int|
        0 <= k < arrows.len() && 0 <= j < arrows[k].1.blocks@.len() && first_keyed(
            arrows,
            t,
            #[trigger] arrows[k].1.blocks@[j]@,
        ) implies #[trigger] graph_edges(arrows).contains((k as usize, t as usize)) by {
        let name = arrows[k].1.blocks@[j]@;
        lemma_key_index(arrows, name);
        let ki = key_index(arrows, name);
        if ki == -1 {
            assert(arrows[t].0@ != name);
        } else if ki < t {
            assert(arrows[ki].0@ != name);
        } else if ki > t {
            assert(arrows[t].0@ != name);
        }
        let parts = block_edge_parts(arrows, k);
        assert(parts[j] == seq![(k as usize, t as usize)]);
        lemma_flat_contains(parts, j, 0);
        assert(outer[k] == flat(parts));
        let q = choose|q: int| 0 <= q < flat(parts).len() && flat(parts)[q] == (k as usize, t as usize);
        lemma_flat_contains(outer, k, q);
    }
    let p = |e: (usize, usize)| exists|k: int, j: int|
        0 <= k < arrows.len() && 0 <= j < arrows[k].1.blocks@.len() && k == e.0 && first_keyed(
            arrows,
            e.1 as int,
            #[trigger] arrows[k].1.blocks@[j]@,
        );
    assert forall|i: int, m: int| 0 <= i < outer.len() && 0 <= m < outer[i].len() implies p(#[trigger] outer[i][m]) by {
        let parts = block_edge_parts(arrows, i);
        assert(outer[i] == flat(parts));
        assert forall|a: int, b: int| 0 <= a < parts.len() && 0 <= b < parts[a].len() implies p(#[trigger] parts[a][b]) by {
            let name = arrows[i].1.blocks@[a]@;
            lemma_key_index(arrows, name);
            let t = key_index(arrows, name);
            assert(t != -1);
            assert(parts[a][b] == (i as usize, t as usize));
            assert(first_keyed(arrows, t, arrows[i].1.blocks@[a]@));
            assert(0 <= i < arrows.len() && 0 <= a < arrows[i].1.blocks@.len() && i == parts[a][b].0
                && first_keyed(arrows, parts[a][b].1 as int, arrows[i].1.blocks@[a]@));
        }
        lemma_flat_forall(parts, p);
    }
    lemma_flat_forall(outer, p);
    assert forall|e: (usize, usize)| #[trigger] graph_edges(arrows).contains(e) implies p(e) by {
        let q = choose|q: int| 0 <= q < graph_edges(arrows).len() && graph_edges(arrows)[q] == e;
    }
}

/// A component is a cycle: it has more than one member, or its one member
/// blocks itself.
pub open spec fn cyclic_component(edges: Seq<(usize, usize)>) -> spec_fn(Seq<usize>) -> bool {
    |c: Seq<usize>| c.len() != 1 || edges.contains((c[0], c[0]))
}

/// The DAG check reports exactly one finding per strongly connected
/// component that is a cycle.
pub proof fn law_dag_findings_count(repo: LidRepo)
    ensures
        dag_findings(repo).len() == tarjan_sccs(
            repo.index.arrows@.len(),
            graph_edges(repo.index.arrows@),
        ).filter(cyclic_component(graph_edges(repo.index.arrows@))).len(),
{
    let edges = graph_edges(repo.index.arrows@);
    let sccs = tarjan_sccs(repo.index.arrows@.len(), edges);
    lemma_flat_len_count(
        sccs,
        Seq::new(sccs.len(), |i: int| scc_findings(repo.root@, node_ids(repo.index.arrows@), edges, sccs[i])),
        cyclic_component(edges),
    );
}

proof fn lemma_key_index(arrows: Seq<(SegmentId, Segment)>, id: Seq<char>)
    ensures
        -1 <= key_index(arrows, id) < arrows.len(),
        key_index(arrows, id) != -1 ==> arrows[key_index(arrows, id)].0@ == id,
        key_index(arrows, id) == -1 ==> forall|k: int| 0 <= k < arrows.len() ==> (#[trigger] arrows[k]).0@ != id,
        key_index(arrows, id) != -1 ==> forall|k: int|
            0 <= k < key_index(arrows, id) ==> (#[trigger] arrows[k]).0@ != id,
    decreases arrows.len(),
{
    if arrows.len() > 0 {
        lemma_key_index(arrows.drop_last(), id);
        assert forall|k: int| 0 <= k < arrows.len() - 1 implies arrows[k] == arrows.drop_last()[k] by {}
    }
}

fn key_index_exec(arrows: &Vec<(SegmentId, Segment)>, id: &str) -> (r: Option<usize>)
    ensures
        r matches Some(t) ==> key_index(arrows@, id@) == t,
        r is None ==> key_index(arrows@, id@) == -1,
{
    proof {
        lemma_key_index(arrows@, id@);
    }
    let mut k: usize = 0;
    while k < arrows.len()
        invariant
            0 <= k <= arrows@.len(),
            -1 <= key_index(arrows@, id@) < arrows@.len(),
            key_index(arrows@, id@) != -1 ==> arrows@[key_index(arrows@, id@)].0@ == id@,
            key_index(arrows@, id@) == -1 ==> forall|q: int| 0 <= q < arrows@.len() ==> (#[trigger] arrows@[q]).0@ != id@,
            key_index(arrows@, id@) != -1 ==> forall|q: int| 0 <= q < key_index(arrows@, id@) ==> (#[trigger] arrows@[q]).0@ != id@,
            forall|q: int| 0 <= q < k ==> (#[trigger] arrows@[q]).0@ != id@,
        decreases arrows@.len() - k,
    {
        if str_eq(arrows[k].0.as_str(), id) {
            return Some(k);
        }
        k = k + 1;
    }
    None
}

fn graph_edges_exec(arrows: &Vec<(SegmentId, Segment)>) -> (r: Vec<(usize, usize)>)
    ensures
        r@ == graph_edges(arrows@),
        forall|k: int| 0 <= k < r@.len() ==> (#[trigger] r@[k]).0 < arrows@.len() && r@[k].1 < arrows@.len(),
{
    let ghost blocks = Seq::new(arrows@.len(), |k: int| block_edges(arrows@, k));
    let mut out: Vec<(usize, usize)> = Vec::new();
    let mut k: usize = 0;
    while k < arrows.len()
        invariant
            0 <= k <= arrows@.len(),
            blocks == Seq::new(arrows@.len(), |k: int| block_edges(arrows@, k)),
            out@ == flat(blocks.take(k as int)),
            forall|q: int| 0 <= q < out@.len() ==> (#[trigger] out@[q]).0 < arrows@.len() && out@[q].1 < arrows@.len(),
        decreases arrows@.len() - k,
    {
        proof {
            lemma_flat_take(blocks, k as int);
        }
        let ghost head = out@;
        let bl = &arrows[k].1.blocks;
        let ghost inner = Seq::new(
            bl@.len(),
            |j: int|
                {
                    let t = key_index(arrows@, bl@[j]@);
                    if t == -1 {
                        Seq::<(usize, usize)>::empty()
                    } else {
                        seq![(k as usize, t as usize)]
                    }
                },
        );
        assert(inner =~= block_edge_parts(arrows@, k as int));
        let mut j: usize = 0;
        while j < bl.len()
            invariant
                0 <= k < arrows@.len(),
                0 <= j <= bl@.len(),
                bl@ == arrows@[k as int].1.blocks@,
                inner == Seq::new(
                    bl@.len(),
                    |j: int|
                        {
                            let t = key_index(arrows@, bl@[j]@);
                            if t == -1 {
                                Seq::<(usize, usize)>::empty()
                            } else {
                                seq![(k as usize, t as usize)]
                            }
                        },
                ),
                out@ == head + flat(inner.take(j as int)),
                forall|q: int| 0 <= q < out@.len() ==> (#[trigger] out@[q]).0 < arrows@.len() && out@[q].1 < arrows@.len(),
            decreases bl@.len() - j,
        {
            proof {
                lemma_flat_take(inner, j as int);
                lemma_key_index(arrows@, bl@[j as int]@);
            }
            match key_index_exec(arrows, bl[j].as_str()) {
                Some(t) => {
                    out.push((k, t));
                },
                None => {},
            }
            assert(head + flat(inner.take(j as int)) + inner[j as int] =~= head + flat(inner.take(j + 1)));
            j = j + 1;
        }
        proof {
            lemma_flat_all(inner);
        }
        k = k + 1;
    }
    proof {
        lemma_flat_all(blocks);
    }
    out
}

proof fn lemma_insert_at(s: Seq<Seq<char>>, x: Seq<char>, p: int)
    requires
        0 <= p <= s.len(),
        forall|k: int| 0 <= k < p ==> !lex_lt(x, #[trigger] s[k]),
        p < s.len() ==> lex_lt(x, s[p]),
    ensures
        insert_sorted(s, x) == s.insert(p, x),
    decreases p,
{
    if p == 0 {
        assert(s.insert(0, x) =~= seq![x] + s);
    } else {
        assert(!lex_lt(x, s[0]));
        lemma_insert_at(s.drop_first(), x, p - 1);
        assert(seq![s[0]] + s.drop_first().insert(p - 1, x) =~= s.insert(p, x));
    }
}

/// The strings of `ids` in ascending order.
pub fn sort_strings(ids: Vec<String>) -> (r: Vec<String>)
    ensures
        r@.map_values(|s: String| s@) == sorted_ids(ids@.map_values(|s: String| s@)),
{
    let ghost src = ids@.map_values(|s: String| s@);
    let mut out: Vec<String> = Vec::new();
    let mut k: usize = 0;
    while k < ids.len()
        invariant
            0 <= k <= ids@.len(),
            src == ids@.map_values(|s: String| s@),
            out@.map_values(|s: String| s@) == sorted_ids(src.take(k as int)),
        decreases ids@.len() - k,
    {
        let x = ids[k].clone();
        let mut p: usize = 0;
        while p < out.len() && !str_lt(x.as_str(), out[p].as_str())
            invariant
                0 <= p <= out@.len(),
                forall|q: int| 0 <= q < p ==> !lex_lt(x@, (#[trigger] out@[q])@),
            decreases out@.len() - p,
        {
            p = p + 1;
        }
        let ghost before = out@.map_values(|s: String| s@);
        proof {
            lemma_insert_at(before, x@, p as int);
            assert(src.take(k + 1).drop_last() =~= src.take(k as int));
        }
        out.insert(p, x);
        assert(out@.map_values(|s: String| s@) =~= before.insert(p as int, src[k as int]));
        k = k + 1;
    }
    assert(src.take(k as int) =~= src);
    out
}

/// `parts` joined by ` → `.
fn join_arrows(parts: &Vec<String>) -> (r: String)
    ensures
        r@ == join_str(parts@.map_values(|s: String| s@), " → "@),
{
    let mut out = String::new();
    let mut k: usize = 0;
    while k < parts.len()
        invariant
            0 <= k <= parts@.len(),
            out@ == join_str(parts@.take(k as int).map_values(|s: String| s@), " → "@),
        decreases parts@.len() - k,
    {
        let ghost pre = parts@.take(k as int).map_values(|s: String| s@);
        if k > 0 {
            out.append(" → ");
        }
        out.append(parts[k].as_str());
        proof {
            let now = parts@.take(k + 1).map_values(|s: String| s@);
            assert(now.drop_last() =~= pre);
            if k == 0 {
                assert(out@ =~= now[0]);
            }
        }
        k = k + 1;
    }
    assert(parts@.take(k as int) =~= parts@);
    out
}

fn has_edge(edges: &Vec<(usize, usize)>, a: usize, b: usize) -> (r: bool)
    ensures
        r == edges@.contains((a, b)),
{
    let mut k: usize = 0;
    while k < edges.len()
        invariant
            0 <= k <= edges@.len(),
            forall|q: int| 0 <= q < k ==> (#[trigger] edges@[q]) != (a, b),
        decreases edges@.len() - k,
    {
        if edges[k].0 == a && edges[k].1 == b {
            assert(edges@[k as int] == (a, b));
            return true;
        }
        k = k + 1;
    }
    false
}

fn dag_finding(root: &str, message: String, fix: String) -> (r: Finding)
    ensures
        r@ == dag_view(root@, message@, fix@),
{
    let d1 = join(root, "docs");
    let d2 = join(d1.as_str(), "arrows");
    let y = join(d2.as_str(), "index.yaml");
    crate::checks::finding_at(CheckId::Dag, Severity::Error, Category::Dag, message, y, Some(fix))
}

/// Findings for the strongly connected components `sccs` of the
/// repository's `blocks` graph (whose edges are `edges`), in order.
pub fn findings_for_sccs(repo: &LidRepo, edges: &Vec<(usize, usize)>, sccs: &Vec<Vec<usize>>) -> (r: Vec<Finding>)
    requires
        forall|i: int, j: int| 0 <= i < sccs@.len() && 0 <= j < sccs@[i]@.len() ==> (#[trigger] sccs@[i]@[j]) < repo.index.arrows@.len(),
    ensures
        views(r@) == dag_findings_from(*repo, edges@, sccs@.map_values(|c: Vec<usize>| c@)),
{
    let ghost ids = node_ids(repo.index.arrows@);
    let ghost cs = sccs@.map_values(|c: Vec<usize>| c@);
    let ghost blocks = Seq::new(cs.len(), |i: int| scc_findings(repo.root@, ids, edges@, cs[i]));
    let root = repo.root.as_str();
    let mut out: Vec<Finding> = Vec::new();
    let mut i: usize = 0;
    while i < sccs.len()
        invariant
            0 <= i <= sccs@.len(),
            root@ == repo.root@,
            ids == node_ids(repo.index.arrows@),
            cs == sccs@.map_values(|c: Vec<usize>| c@),
            forall|i: int, j: int| 0 <= i < sccs@.len() && 0 <= j < sccs@[i]@.len() ==> (#[trigger] sccs@[i]@[j]) < repo.index.arrows@.len(),
            blocks == Seq::new(cs.len(), |i: int| scc_findings(repo.root@, ids, edges@, cs[i])),
            views(out@) == flat(blocks.take(i as int)),
        decreases sccs@.len() - i,
    {
        proof {
            lemma_flat_take(blocks, i as int);
        }
        let c = &sccs[i];
        assert(cs[i as int] == c@);
        if c.len() == 1 {
            let v = c[0];
            if has_edge(edges, v, v) {
                let s = repo.index.arrows[v].0.as_str();
                let mut msg = cat("segment `", s);
                msg.append("` blocks itself — `blocks` must form a DAG");
                let mut fix = cat("remove `", s);
                fix.append("` from its own `blocks` list");
                push_finding(&mut out, dag_finding(root, msg, fix));
            }
        } else {
            let mut names: Vec<String> = Vec::new();
            let mut j: usize = 0;
            while j < c.len()
                invariant
                    0 <= j <= c@.len(),
                    0 <= i < sccs@.len(),
                    c@ == sccs@[i as int]@,
                    ids == node_ids(repo.index.arrows@),
                    forall|q: int| 0 <= q < c@.len() ==> (#[trigger] c@[q]) < repo.index.arrows@.len(),
                    names@.map_values(|s: String| s@) == c@.take(j as int).map_values(|v: usize| ids[v as int]),
                decreases c@.len() - j,
            {
                let ghost before = names@.map_values(|s: String| s@);
                let v = c[j];
                names.push(repo.index.arrows[v].0.as_str().to_owned());
                assert(ids[v as int] == repo.index.arrows@[v as int].0@);
                assert(names@.map_values(|s: String| s@) =~= before.push(ids[v as int]));
                assert(names@.map_values(|s: String| s@) =~= c@.take(j + 1).map_values(|v: usize| ids[v as int]));
                j = j + 1;
            }
            assert(c@.take(j as int) =~= c@);
            let sorted = sort_strings(names);
            let chain = join_arrows(&sorted);
            let mut msg = String::from_str("arrow dependency cycle: ");
            let n = usize_string(c.len());
            msg.append(n.as_str());
            msg.append(" segments form a cycle (");
            msg.append(chain.as_str());
            msg.append(")");
            let fix = String::from_str("remove one of the `blocks` edges among the listed segments to break the cycle");
            push_finding(&mut out, dag_finding(root, msg, fix));
        }
        i = i + 1;
    }
    proof {
        lemma_flat_all(blocks);
    }
    out
}

impl Check for DagCheck {
    fn id(&self) -> (r: CheckId)
        ensures
            r == CheckId::Dag,
    {
        CheckId::Dag
    }

    /// Flags every cycle and self-loop in the `blocks` graph.
    fn run(&self, repo: &LidRepo) -> (r: Vec<Finding>)
        ensures
            views(r@) == dag_findings(*repo),
    {
        let edges = graph_edges_exec(&repo.index.arrows);
        let sccs = scc_wrapper(repo.index.arrows.len(), &edges);
        proof {
            let cs = sccs@.map_values(|c: Vec<usize>| c@);
            assert forall|i: int, j: int| 0 <= i < sccs@.len() && 0 <= j < sccs@[i]@.len() implies (
            #[trigger] sccs@[i]@[j]) < repo.index.arrows@.len() by {
                assert(cs[i][j] == sccs@[i]@[j]);
            }
        }
        findings_for_sccs(repo, &edges, &sccs)
    }
}

/// Node `v` lies on a closed walk of one or more edges.
pub open spec fn on_cycle(edges: Seq<(usize, usize)>, v: usize) -> bool {
    exists|p: Seq<usize>| #[trigger] is_walk(edges, p) && p.len() >= 2 && p[0] == v && p.last() == v
}

proof fn lemma_walk_join(edges: Seq<(usize, usize)>, p: Seq<usize>, q: Seq<usize>)
    requires
        is_walk(edges, p),
        is_walk(edges, q),
        p.last() == q[0],
    ensures
        is_walk(edges, p + q.drop_first()),
        (p + q.drop_first())[0] == p[0],
        (p + q.drop_first()).last() == q.last(),
        (p + q.drop_first()).len() == p.len() + q.len() - 1,
{
    let r = p + q.drop_first();
    assert forall|k: int| 0 <= k < r.len() - 1 implies edges.contains((r[k], #[trigger] r[k + 1])) by {
        if k < p.len() - 1 {
            assert(r[k] == p[k] && r[k + 1] == p[k + 1]);
        } else {
            let m = k - (p.len() - 1);
            assert(r[k] == q[m]);
            assert(r[k + 1] == q[m + 1]);
        }
    }
    if q.len() > 1 {
        assert(r.last() == q.drop_first().last());
    }
}

proof fn lemma_graph_edges_bounded(arrows: Seq<(SegmentId, Segment)>)
    ensures
        forall|q: int| 0 <= q < graph_edges(arrows).len() ==> (#[trigger] graph_edges(arrows)[q]).0 < arrows.len()
            && graph_edges(arrows)[q].1 < arrows.len(),
{
    let n = arrows.len();
    let outer = Seq::new(arrows.len(), |k: int| block_edges(arrows, k));
    assert forall|k: int, j: int| 0 <= k < outer.len() && 0 <= j < outer[k].len() implies (#[trigger] outer[k][j]).0 < n
        && outer[k][j].1 < n by {
        let parts = block_edge_parts(arrows, k);
        assert forall|a: int, b: int| 0 <= a < parts.len() && 0 <= b < parts[a].len() implies (#[trigger] parts[a][b]).0 < n
            && parts[a][b].1 < n by {
            lemma_key_index(arrows, arrows[k].1.blocks@[a]@);
        }
        lemma_flat_bounded(parts, n);
    }
    lemma_flat_bounded(outer, n);
}

proof fn lemma_flat_bounded(s: Seq<Seq<(usize, usize)>>, n: nat)
    requires
        forall|i: int, j: int| 0 <= i < s.len() && 0 <= j < s[i].len() ==> (#[trigger] s[i][j]).0 < n && s[i][j].1 < n,
    ensures
        forall|q: int| 0 <= q < flat(s).len() ==> (#[trigger] flat(s)[q]).0 < n && flat(s)[q].1 < n,
    decreases s.len(),
{
    if s.len() > 0 {
        lemma_flat_bounded(s.drop_last(), n);
        let a = flat(s.drop_last());
        assert forall|q: int| 0 <= q < flat(s).len() implies (#[trigger] flat(s)[q]).0 < n && flat(s)[q].1 < n by {
            if q < a.len() {
                assert(flat(s)[q] == a[q]);
            } else {
                assert(flat(s)[q] == s[s.len() - 1][q - a.len()]);
            }
        }
    }
}

proof fn lemma_flat_empty_iff<A>(s: Seq<Seq<A>>)
    ensures
        (flat(s).len() == 0) == (forall|i: int| 0 <= i < s.len() ==> (#[trigger] s[i]).len() == 0),
    decreases s.len(),
{
    if s.len() > 0 {
        lemma_flat_empty_iff(s.drop_last());
        assert(flat(s).len() == flat(s.drop_last()).len() + s.last().len());
        if flat(s).len() == 0 {
            assert forall|i: int| 0 <= i < s.len() implies (#[trigger] s[i]).len() == 0 by {
                if i < s.len() - 1 {
                    assert(s[i] == s.drop_last()[i]);
                }
            }
        } else if forall|i: int| 0 <= i < s.len() ==> (#[trigger] s[i]).len() == 0 {
            assert forall|i: int| 0 <= i < s.drop_last().len() implies (#[trigger] s.drop_last()[i]).len() == 0 by {
                assert(s.drop_last()[i] == s[i]);
            }
            assert(s[s.len() - 1].len() == 0);
        }
    }
}

/// The DAG check finds nothing exactly when the `blocks` graph has no
/// cycle: no segment lies on a closed walk of its `blocks` edges, a
/// segment that blocks itself included. Stated of the components that
/// petgraph's `tarjan_scc` reports, as its trusted contract describes them.
pub proof fn law_dag_silent_iff_acyclic(repo: LidRepo)
    requires
        scc_decomposition(
            repo.index.arrows@.len() as nat,
            graph_edges(repo.index.arrows@),
            tarjan_sccs(repo.index.arrows@.len() as nat, graph_edges(repo.index.arrows@)),
        ),
    ensures
        (dag_findings(repo).len() == 0) == (forall|v: usize| !on_cycle(graph_edges(repo.index.arrows@), v)),
{
    let arrows = repo.index.arrows@;
    let n = arrows.len() as nat;
    let edges = graph_edges(arrows);
    let sccs = tarjan_sccs(n, edges);
    let ids = node_ids(arrows);
    let blocks = Seq::new(sccs.len(), |i: int| scc_findings(repo.root@, ids, edges, sccs[i]));
    lemma_flat_empty_iff(blocks);
    lemma_graph_edges_bounded(arrows);
    if dag_findings(repo).len() == 0 {
        assert forall|v: usize| !on_cycle(edges, v) by {
            if on_cycle(edges, v) {
                let p = choose|p: Seq<usize>| #[trigger] is_walk(edges, p) && p.len() >= 2 && p[0] == v && p.last() == v;
                let u = p[1];
                assert(edges.contains((p[0], p[1])));
                let e = choose|q: int| 0 <= q < edges.len() && edges[q] == (v, u);
                assert(edges[e].0 < n && edges[e].1 < n);
                let w = seq![v, u];
                assert(is_walk(edges, w));
                assert(reaches(edges, v, u));
                let t = p.drop_first();
                assert forall|k: int| 0 <= k < t.len() - 1 implies edges.contains((t[k], #[trigger] t[k + 1])) by {
                    assert(t[k] == p[k + 1] && t[k + 1] == p[k + 2]);
                }
                assert(is_walk(edges, t));
                assert(reaches(edges, u, v));
                assert(placed(sccs, v));
                assert(placed(sccs, u));
                let (i1, j1) = choose|i: int, j: int| 0 <= i < sccs.len() && 0 <= j < sccs[i].len() && #[trigger] sccs[i][j] == v;
                let (i2, j2) = choose|i: int, j: int| 0 <= i < sccs.len() && 0 <= j < sccs[i].len() && #[trigger] sccs[i][j] == u;
                assert(i1 == i2);
                assert(blocks[i1].len() == 0);
                assert(sccs[i1].len() == 1);
                assert(j1 == 0 && j2 == 0);
                assert(u == v);
                assert(edges.contains((sccs[i1][0], sccs[i1][0])));
            }
        }
    } else {
        let i = choose|i: int| 0 <= i < blocks.len() && (#[trigger] blocks[i]).len() != 0;
        let c = sccs[i];
        assert(c.len() > 0);
        if c.len() == 1 {
            assert(edges.contains((c[0], c[0])));
            let w = seq![c[0], c[0]];
            assert(is_walk(edges, w));
            assert(on_cycle(edges, c[0]));
        } else {
            let a = c[0];
            let b = c[1];
            assert(a != b);
            assert(reaches(edges, a, b) && reaches(edges, b, a));
            let p = choose|p: Seq<usize>| #[trigger] is_walk(edges, p) && p[0] == a && p.last() == b;
            let q = choose|q: Seq<usize>| #[trigger] is_walk(edges, q) && q[0] == b && q.last() == a;
            lemma_walk_join(edges, p, q);
            let r = p + q.drop_first();
            assert(p.len() >= 2) by {
                if p.len() == 1 {
                    assert(p.last() == p[0]);
                }
            }
            assert(is_walk(edges, r) && r.len() >= 2 && r[0] == a && r.last() == a);
            assert(on_cycle(edges, a));
        }
    }
}

} // verus!
