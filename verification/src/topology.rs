//! Acyclicity of a workflow graph, decided by a depth-first search that
//! also yields a topological order of the nodes.

use vstd::prelude::*;
use crate::workflow::{graph_of, NodeView, WorkflowNode};

verus! {

/// Every index in every `prev` and `next` list is a position of the graph.
pub open spec fn edges_in_bounds(nodes: Seq<NodeView>) -> bool {
    &&& forall|i: int, k: int|
        0 <= i < nodes.len() && 0 <= k < nodes[i].prev.len() ==> (#[trigger] nodes[i].prev[k])
            < nodes.len()
    &&& forall|i: int, k: int|
        0 <= i < nodes.len() && 0 <= k < nodes[i].next.len() ==> (#[trigger] nodes[i].next[k])
            < nodes.len()
}

/// The graph has the edge `u -> v`: `v` stands in the `next` list of `u`.
pub open spec fn has_edge(nodes: Seq<NodeView>, u: int, v: int) -> bool {
    &&& 0 <= u < nodes.len()
    &&& 0 <= v < nodes.len()
    &&& v <= usize::MAX
    &&& nodes[u].next.contains(v as usize)
}

/// `u` stands in the `prev` list of `v`.
pub open spec fn has_back_link(nodes: Seq<NodeView>, v: int, u: int) -> bool {
    &&& 0 <= u < nodes.len()
    &&& 0 <= v < nodes.len()
    &&& u <= usize::MAX
    &&& nodes[v].prev.contains(u as usize)
}

/// `prev` and `next` agree: `j` is in `next[i]` exactly when `i` is in
/// `prev[j]`.
pub open spec fn edges_consistent(nodes: Seq<NodeView>) -> bool {
    forall|i: int, j: int|
        #![trigger has_edge(nodes, i, j)]
        #![trigger has_back_link(nodes, j, i)]
        has_edge(nodes, i, j) <==> has_back_link(nodes, j, i)
}

/// `rank` numbers the nodes with `0..nodes.len()` so that every edge leads
/// to a higher number.
pub open spec fn is_topological_rank(nodes: Seq<NodeView>, rank: Seq<int>) -> bool {
    &&& rank.len() == nodes.len()
    &&& forall|v: int| 0 <= v < nodes.len() ==> 0 <= #[trigger] rank[v] < nodes.len()
    &&& forall|u: int, v: int| #[trigger] has_edge(nodes, u, v) ==> rank[u] < rank[v]
}

/// The graph is acyclic: its nodes can be numbered so that every edge
/// leads upwards.
pub open spec fn acyclic(nodes: Seq<NodeView>) -> bool {
    exists|rank: Seq<int>| is_topological_rank(nodes, rank)
}

/// `path` walks along edges: at least one node, each step an edge.
pub open spec fn is_path(nodes: Seq<NodeView>, path: Seq<int>) -> bool {
    &&& path.len() >= 1
    &&& forall|k: int| 0 <= k < path.len() ==> 0 <= #[trigger] path[k] < nodes.len()
    &&& forall|k: int| 0 <= k < path.len() - 1 ==> has_edge(nodes, #[trigger] path[k], path[k + 1])
}

/// A cycle: a path of at least one edge that ends where it starts.
pub open spec fn is_cycle(nodes: Seq<NodeView>, path: Seq<int>) -> bool {
    &&& is_path(nodes, path)
    &&& path.len() >= 2
    &&& path[0] == path[path.len() - 1]
}

/// `order` lists `u` at a position below `p`.
pub open spec fn listed_before(order: Seq<usize>, p: int, u: usize) -> bool {
    exists|q: int| 0 <= q < p && #[trigger] order[q] == u
}

/// `order` lists every node exactly once, each after all the nodes in its
/// `prev` list.
pub open spec fn is_topological_order(nodes: Seq<NodeView>, order: Seq<usize>) -> bool {
    &&& order.len() == nodes.len() <= usize::MAX
    &&& forall|p: int| 0 <= p < order.len() ==> (#[trigger] order[p]) < nodes.len()
    &&& forall|v: usize| v < nodes.len() ==> #[trigger] order.contains(v)
    &&& forall|p: int, q: int| 0 <= p < q < order.len() ==> order[p] != order[q]
    &&& forall|p: int, k: int|
        0 <= p < order.len() && 0 <= k < nodes[order[p] as int].prev.len() ==> listed_before(
            order,
            p,
            #[trigger] nodes[order[p] as int].prev[k],
        )
}

/// Along a path every topological rank strictly grows.
proof fn lemma_rank_grows_along_path(
    nodes: Seq<NodeView>,
    rank: Seq<int>,
    path: Seq<int>,
    k: int,
)
    requires
        is_topological_rank(nodes, rank),
        is_path(nodes, path),
        1 <= k < path.len(),
    ensures
        rank[path[0]] < rank[path[k]],
    decreases k,
{
    assert(has_edge(nodes, path[k - 1], path[k]));
    if k > 1 {
        lemma_rank_grows_along_path(nodes, rank, path, k - 1);
    }
}

/// An acyclic graph contains no cycle: no path of one edge or more leads
/// from a node back to itself.
pub proof fn lemma_acyclic_has_no_cycle(nodes: Seq<NodeView>, path: Seq<int>)
    requires
        acyclic(nodes),
    ensures
        !is_cycle(nodes, path),
{
    if is_cycle(nodes, path) {
        let rank = choose|rank: Seq<int>| is_topological_rank(nodes, rank);
        lemma_rank_grows_along_path(nodes, rank, path, path.len() - 1);
    }
}

/// The position at which `order` lists `v`.
pub open spec fn position_in(order: Seq<usize>, v: int) -> int {
    choose|p: int| 0 <= p < order.len() && order[p] == v
}

/// The positions of a topological order are a topological rank.
pub proof fn lemma_order_gives_rank(nodes: Seq<NodeView>, order: Seq<usize>)
    requires
        edges_consistent(nodes),
        is_topological_order(nodes, order),
    ensures
        is_topological_rank(nodes, Seq::new(nodes.len(), |v: int| position_in(order, v))),
        acyclic(nodes),
{
    let rank = Seq::new(nodes.len(), |v: int| position_in(order, v));
    assert forall|v: int| 0 <= v < nodes.len() implies 0 <= #[trigger] rank[v] < nodes.len()
        && order[rank[v]] == v by {
        assert(order.contains(v as usize));
        let p = choose|p: int| 0 <= p < order.len() && order[p] == v as usize;
        assert(0 <= p < order.len() && order[p] == v);
    }
    assert forall|u: int, v: int| #[trigger] has_edge(nodes, u, v) implies rank[u] < rank[v] by {
        assert(has_back_link(nodes, v, u));
        let k = choose|k: int| 0 <= k < nodes[v].prev.len() && nodes[v].prev[k] == u as usize;
        let p = rank[v];
        assert(order[p] == v);
        assert(listed_before(order, p, nodes[order[p] as int].prev[k]));
        let q = choose|q: int| 0 <= q < p && #[trigger] order[q] == u as usize;
        assert(order[rank[u]] == u);
        if rank[u] != q {
            if rank[u] < q {
                assert(order[rank[u]] != order[q]);
            } else {
                assert(order[q] != order[rank[u]]);
            }
        }
    }
    assert(is_topological_rank(nodes, rank));
}

/// Are all entries of `list` below `n`?
fn all_below(list: &Vec<usize>, n: usize) -> (r: bool)
    ensures
        r == (forall|k: int| 0 <= k < list@.len() ==> (#[trigger] list@[k]) < n),
{
    let mut k: usize = 0;
    while k < list.len()
        invariant
            k <= list@.len(),
            forall|m: int| 0 <= m < k ==> (#[trigger] list@[m]) < n,
        decreases list@.len() - k,
    {
        if list[k] >= n {
            return false;
        }
        k = k + 1;
    }
    true
}

/// Do the lists of every node stay within the graph?
pub(crate) fn check_bounds(nodes: &Vec<WorkflowNode>) -> (r: bool)
    ensures
        r == edges_in_bounds(graph_of(nodes@)),
{
    let ghost graph = graph_of(nodes@);
    let n = nodes.len();
    let mut i: usize = 0;
    while i < n
        invariant
            graph == graph_of(nodes@),
            i <= n,
            n == nodes@.len(),
            forall|a: int, k: int|
                0 <= a < i && 0 <= k < graph[a].prev.len() ==> (#[trigger] graph[a].prev[k])
                    < n,
            forall|a: int, k: int|
                0 <= a < i && 0 <= k < graph[a].next.len() ==> (#[trigger] graph[a].next[k])
                    < n,
        decreases n - i,
    {
        assert(graph[i as int].prev == nodes@[i as int].prev@);
        assert(graph[i as int].next == nodes@[i as int].next@);
        if !all_below(&nodes[i].prev, n) || !all_below(&nodes[i].next, n) {
            return false;
        }
        i = i + 1;
    }
    true
}

/// Does `list` hold `x`?
fn holds_index(list: &Vec<usize>, x: usize) -> (r: bool)
    ensures
        r == list@.contains(x),
{
    let mut k: usize = 0;
    while k < list.len()
        invariant
            k <= list@.len(),
            forall|m: int| 0 <= m < k ==> list@[m] != x,
        decreases list@.len() - k,
    {
        if list[k] == x {
            return true;
        }
        k = k + 1;
    }
    false
}

/// Do the `prev` and `next` lists agree?
pub(crate) fn check_consistent(nodes: &Vec<WorkflowNode>) -> (r: bool)
    requires
        edges_in_bounds(graph_of(nodes@)),
    ensures
        r == edges_consistent(graph_of(nodes@)),
{
    let ghost graph = graph_of(nodes@);
    let n = nodes.len();
    let mut i: usize = 0;
    while i < n
        invariant
            graph == graph_of(nodes@),
            i <= n,
            n == nodes@.len(),
            edges_in_bounds(graph),
            forall|a: int, b: int|
                0 <= a < i && #[trigger] has_edge(graph, a, b) ==> has_back_link(graph, b, a),
            forall|a: int, b: int|
                0 <= a < i && #[trigger] has_back_link(graph, a, b) ==> has_edge(graph, b, a),
        decreases n - i,
    {
        let mut k: usize = 0;
        while k < nodes[i].next.len()
            invariant
                graph == graph_of(nodes@),
                i < n,
                n == nodes@.len(),
                edges_in_bounds(graph),
                k <= graph[i as int].next.len(),
                forall|m: int|
                    0 <= m < k ==> has_back_link(
                        graph,
                        (#[trigger] graph[i as int].next[m]) as int,
                        i as int,
                    ),
            decreases graph[i as int].next.len() - k,
        {
            let j = nodes[i].next[k];
            if !holds_index(&nodes[j].prev, i) {
                proof {
                    assert(has_edge(graph, i as int, j as int));
                    assert(!has_back_link(graph, j as int, i as int));
                }
                return false;
            }
            k = k + 1;
        }
        let mut k: usize = 0;
        while k < nodes[i].prev.len()
            invariant
                graph == graph_of(nodes@),
                i < n,
                n == nodes@.len(),
                edges_in_bounds(graph),
                k <= graph[i as int].prev.len(),
                forall|m: int|
                    0 <= m < k ==> has_edge(
                        graph,
                        (#[trigger] graph[i as int].prev[m]) as int,
                        i as int,
                    ),
            decreases graph[i as int].prev.len() - k,
        {
            let j = nodes[i].prev[k];
            if !holds_index(&nodes[j].next, i) {
                proof {
                    assert(has_back_link(graph, i as int, j as int));
                    assert(!has_edge(graph, j as int, i as int));
                }
                return false;
            }
            k = k + 1;
        }
        proof {
            assert forall|a: int, b: int|
                0 <= a < i + 1 && #[trigger] has_edge(graph, a, b) implies has_back_link(
                graph,
                b,
                a,
            ) by {
                if a == i {
                    let m = choose|m: int|
                        0 <= m < graph[a].next.len() && graph[a].next[m] == b as usize;
                    assert(has_back_link(graph, graph[i as int].next[m] as int, i as int));
                }
            }
            assert forall|a: int, b: int|
                0 <= a < i + 1 && #[trigger] has_back_link(graph, a, b) implies has_edge(
                graph,
                b,
                a,
            ) by {
                if a == i {
                    let m = choose|m: int|
                        0 <= m < graph[a].prev.len() && graph[a].prev[m] == b as usize;
                    assert(has_edge(graph, graph[i as int].prev[m] as int, i as int));
                }
            }
        }
        i = i + 1;
    }
    proof {
        assert forall|a: int, b: int|
            #![trigger has_edge(graph, a, b)]
            #![trigger has_back_link(graph, b, a)]
            has_edge(graph, a, b) <==> has_back_link(graph, b, a) by {
            if has_back_link(graph, b, a) {
                assert(has_edge(graph, a, b));
            }
        }
    }
    true
}

const WHITE: u8 = 0;

const GRAY: u8 = 1;

const BLACK: u8 = 2;

/// How many entries of `colors` equal `c`.
spec fn count_of(colors: Seq<u8>, c: u8) -> nat
    decreases colors.len(),
{
    if colors.len() == 0 {
        0
    } else {
        count_of(colors.drop_last(), c) + if colors.last() == c {
            1nat
        } else {
            0nat
        }
    }
}

proof fn lemma_count_update(colors: Seq<u8>, i: int, to: u8, c: u8)
    requires
        0 <= i < colors.len(),
    ensures
        count_of(colors.update(i, to), c) + (if colors[i] == c {
            1nat
        } else {
            0nat
        }) == count_of(colors, c) + (if to == c {
            1nat
        } else {
            0nat
        }),
    decreases colors.len(),
{
    if i == colors.len() - 1 {
        assert(colors.update(i, to).drop_last() == colors.drop_last());
    } else {
        assert(colors.update(i, to).drop_last() == colors.drop_last().update(i, to));
        lemma_count_update(colors.drop_last(), i, to, c);
    }
}

proof fn lemma_count_all(colors: Seq<u8>, c: u8)
    requires
        forall|i: int| 0 <= i < colors.len() ==> colors[i] == c,
    ensures
        count_of(colors, c) == colors.len(),
    decreases colors.len(),
{
    if colors.len() > 0 {
        lemma_count_all(colors.drop_last(), c);
    }
}

/// What the search keeps true of the colors and of the nodes finished so
/// far: `order` lists exactly the black nodes, each once and after all the
/// nodes in its `prev` list.
spec fn search_inv(nodes: Seq<NodeView>, colors: Seq<u8>, order: Seq<usize>) -> bool {
    &&& colors.len() == nodes.len() <= usize::MAX
    &&& forall|x: int| 0 <= x < colors.len() ==> #[trigger] colors[x] <= BLACK
    &&& order.len() == count_of(colors, BLACK)
    &&& forall|p: int|
        0 <= p < order.len() ==> (#[trigger] order[p]) < nodes.len() && colors[order[p] as int]
            == BLACK
    &&& forall|v: usize|
        v < nodes.len() && colors[v as int] == BLACK ==> #[trigger] order.contains(v)
    &&& forall|p: int, q: int| 0 <= p < q < order.len() ==> order[p] != order[q]
    &&& forall|p: int, k: int|
        0 <= p < order.len() && 0 <= k < nodes[order[p] as int].prev.len() ==> listed_before(
            order,
            p,
            #[trigger] nodes[order[p] as int].prev[k],
        )
}

/// Each entry of `stack` stands in the `prev` list of the entry before it.
spec fn is_back_chain(nodes: Seq<NodeView>, stack: Seq<int>) -> bool {
    &&& forall|a: int| 0 <= a < stack.len() ==> 0 <= #[trigger] stack[a] < nodes.len()
    &&& forall|a: int|
        0 <= a < stack.len() - 1 ==> has_back_link(nodes, #[trigger] stack[a], stack[a + 1])
}

/// The gray nodes are all on the stack of the search.
spec fn grays_on_stack(colors: Seq<u8>, stack: Seq<int>) -> bool {
    forall|x: int| 0 <= x < colors.len() && #[trigger] colors[x] == GRAY ==> stack.contains(x)
}

/// A node on the stack that stands in the `prev` list of the stack's last
/// node closes a cycle: from that node to the last one, and back along
/// the stack.
proof fn lemma_back_edge_closes_cycle(nodes: Seq<NodeView>, stack: Seq<int>, u: int)
    requires
        edges_consistent(nodes),
        is_back_chain(nodes, stack),
        stack.len() > 0,
        stack.contains(u),
        has_back_link(nodes, stack[stack.len() - 1], u),
    ensures
        exists|path: Seq<int>| is_cycle(nodes, path),
        !acyclic(nodes),
{
    let last = stack.len() - 1;
    let a = choose|a: int| 0 <= a < stack.len() && stack[a] == u;
    let path = Seq::new(
        (last - a + 2) as nat,
        |i: int|
            if i == 0 {
                u
            } else {
                stack[last - i + 1]
            },
    );
    assert forall|k: int| 0 <= k < path.len() - 1 implies has_edge(
        nodes,
        #[trigger] path[k],
        path[k + 1],
    ) by {
        if k == 0 {
            assert(path[1] == stack[last]);
        } else {
            assert(has_back_link(nodes, stack[last - k], stack[last - k + 1]));
        }
    }
    assert(path[path.len() - 1] == stack[a]);
    assert(is_cycle(nodes, path));
    if acyclic(nodes) {
        lemma_acyclic_has_no_cycle(nodes, path);
    }
}

/// Finishes the white node `v`: first every white node in its `prev`
/// list, recursively, then `v` itself. Fails on meeting a gray node, which
/// closes a cycle.
fn visit(
    nodes: &Vec<WorkflowNode>,
    v: usize,
    colors: &mut Vec<u8>,
    order: &mut Vec<usize>,
    Ghost(stack): Ghost<Seq<int>>,
) -> (ok: bool)
    requires
        edges_in_bounds(graph_of(nodes@)),
        edges_consistent(graph_of(nodes@)),
        v < nodes@.len(),
        search_inv(graph_of(nodes@), old(colors)@, old(order)@),
        old(colors)@[v as int] == WHITE,
        is_back_chain(graph_of(nodes@), stack),
        grays_on_stack(old(colors)@, stack),
        stack.len() > 0 ==> has_back_link(graph_of(nodes@), stack[stack.len() - 1], v as int),
    ensures
        !ok ==> !acyclic(graph_of(nodes@)),
        !ok ==> exists|path: Seq<int>| is_cycle(graph_of(nodes@), path),
        ok ==> {
            &&& search_inv(graph_of(nodes@), final(colors)@, final(order)@)
            &&& final(colors)@[v as int] == BLACK
            &&& forall|x: int|
                0 <= x < nodes@.len() ==> (old(colors)@[x] == GRAY <==> #[trigger] final(colors)@[x]
                    == GRAY)
            &&& forall|x: int|
                0 <= x < nodes@.len() && old(colors)@[x] == BLACK ==> #[trigger] final(colors)@[x]
                    == BLACK
            &&& count_of(final(colors)@, WHITE) < count_of(old(colors)@, WHITE)
        },
    decreases count_of(old(colors)@, WHITE),
{
    let ghost graph = graph_of(nodes@);
    let ghost colors0 = colors@;
    let ghost chain = stack.push(v as int);
    proof {
        lemma_count_update(colors0, v as int, GRAY, WHITE);
        lemma_count_update(colors0, v as int, GRAY, BLACK);
    }
    colors.set(v, GRAY);
    proof {
        assert(chain[chain.len() - 1] == v);
        assert forall|x: int|
            0 <= x < colors@.len() && #[trigger] colors@[x] == GRAY implies chain.contains(x) by {
            if x == v {
                assert(chain[chain.len() - 1] == x);
            } else {
                assert(colors0[x] == GRAY);
                let a = choose|a: int| 0 <= a < stack.len() && stack[a] == x;
                assert(chain[a] == x);
            }
        }
        assert(is_back_chain(graph, chain)) by {
            assert forall|a: int| 0 <= a < chain.len() - 1 implies has_back_link(
                graph,
                #[trigger] chain[a],
                chain[a + 1],
            ) by {
                if a < stack.len() - 1 {
                    assert(has_back_link(graph, stack[a], stack[a + 1]));
                }
            }
        }
        assert(search_inv(graph, colors@, order@));
    }
    let prev_len = nodes[v].prev.len();
    let mut k: usize = 0;
    while k < prev_len
        invariant
            graph == graph_of(nodes@),
            edges_in_bounds(graph),
            edges_consistent(graph),
            v < nodes@.len(),
            prev_len == graph[v as int].prev.len(),
            k <= prev_len,
            colors0 == old(colors)@,
            colors0.len() == nodes@.len(),
            colors0[v as int] == WHITE,
            colors@[v as int] == GRAY,
            chain == stack.push(v as int),
            search_inv(graph, colors@, order@),
            is_back_chain(graph, chain),
            grays_on_stack(colors@, chain),
            forall|m: int|
                0 <= m < k ==> colors@[(#[trigger] graph[v as int].prev[m]) as int] == BLACK,
            forall|x: int|
                0 <= x < nodes@.len() && x != v ==> (colors0[x] == GRAY <==> #[trigger] colors@[x]
                    == GRAY),
            forall|x: int|
                0 <= x < nodes@.len() && colors0[x] == BLACK ==> #[trigger] colors@[x] == BLACK,
            count_of(colors@, WHITE) < count_of(colors0, WHITE),
        decreases prev_len - k,
    {
        let u = nodes[v].prev[k];
        assert(u < nodes@.len());
        assert(has_back_link(graph, v as int, u as int));
        let color = colors[u];
        if color == GRAY {
            proof {
                lemma_back_edge_closes_cycle(graph, chain, u as int);
            }
            return false;
        }
        if color == WHITE {
            let ok = visit(nodes, u, colors, order, Ghost(chain));
            if !ok {
                return false;
            }
        }
        k = k + 1;
    }
    let ghost colors1 = colors@;
    let ghost order1 = order@;
    proof {
        lemma_count_update(colors1, v as int, BLACK, WHITE);
        lemma_count_update(colors1, v as int, BLACK, BLACK);
    }
    colors.set(v, BLACK);
    order.push(v);
    proof {
        assert forall|p: int| 0 <= p < order@.len() implies (#[trigger] order@[p]) < nodes@.len()
            && colors@[order@[p] as int] == BLACK by {
            if p < order1.len() {
                assert(order1[p] == order@[p]);
            }
        }
        assert forall|x: usize|
            x < nodes@.len() && colors@[x as int] == BLACK implies #[trigger] order@.contains(x) by {
            if x == v {
                assert(order@[order1.len() as int] == x);
            } else {
                assert(order1.contains(x));
                let p = choose|p: int| 0 <= p < order1.len() && order1[p] == x;
                assert(order@[p] == x);
            }
        }
        assert forall|p: int, q: int| 0 <= p < q < order@.len() implies order@[p] != order@[q] by {
            assert(order1[p] == order@[p]);
            if q < order1.len() {
                assert(order1[q] == order@[q]);
            }
        }
        assert forall|p: int, m: int|
            0 <= p < order@.len() && 0 <= m < graph[order@[p] as int].prev.len()
                implies listed_before(order@, p, #[trigger] graph[order@[p] as int].prev[m]) by {
            if p < order1.len() {
                assert(order1[p] == order@[p]);
                let w = graph[order1[p] as int].prev[m];
                assert(listed_before(order1, p, w));
                let q = choose|q: int| 0 <= q < p && #[trigger] order1[q] == w;
                assert(order@[q] == order1[q]);
            } else {
                let u = graph[v as int].prev[m];
                assert(colors1[u as int] == BLACK);
                assert(order1.contains(u));
                let q = choose|q: int| 0 <= q < order1.len() && order1[q] == u;
                assert(order@[q] == u);
            }
        }
        assert(search_inv(graph, colors@, order@));
    }
    true
}

/// A topological order of the nodes, found by depth-first search along the
/// `prev` lists; `None` exactly when the graph is not acyclic.
pub(crate) fn search_order(nodes: &Vec<WorkflowNode>) -> (r: Option<Vec<usize>>)
    requires
        edges_in_bounds(graph_of(nodes@)),
        edges_consistent(graph_of(nodes@)),
    ensures
        r is Some <==> acyclic(graph_of(nodes@)),
        r is Some ==> is_topological_order(graph_of(nodes@), r->0@),
        r is None ==> exists|path: Seq<int>| is_cycle(graph_of(nodes@), path),
{
    let ghost graph = graph_of(nodes@);
    let n = nodes.len();
    let mut colors: Vec<u8> = Vec::new();
    let mut i: usize = 0;
    while i < n
        invariant
            graph == graph_of(nodes@),
            i <= n,
            colors@.len() == i,
            forall|x: int| 0 <= x < i ==> colors@[x] == WHITE,
        decreases n - i,
    {
        colors.push(WHITE);
        i = i + 1;
    }
    let mut order: Vec<usize> = Vec::new();
    proof {
        lemma_count_all(colors@, WHITE);
        assert(count_of(colors@, BLACK) == 0) by {
            lemma_count_none(colors@, BLACK);
        }
    }
    let mut v: usize = 0;
    while v < n
        invariant
            graph == graph_of(nodes@),
            edges_in_bounds(graph),
            edges_consistent(graph),
            n == nodes@.len(),
            v <= n,
            search_inv(graph, colors@, order@),
            forall|x: int| 0 <= x < n ==> #[trigger] colors@[x] != GRAY,
            forall|x: int| 0 <= x < v ==> #[trigger] colors@[x] == BLACK,
        decreases n - v,
    {
        if colors[v] == WHITE {
            let ok = visit(nodes, v, &mut colors, &mut order, Ghost(Seq::empty()));
            if !ok {
                return None;
            }
        }
        v = v + 1;
    }
    proof {
        lemma_count_all(colors@, BLACK);
        assert(is_topological_order(graph, order@));
        lemma_order_gives_rank(graph, order@);
    }
    Some(order)
}

proof fn lemma_count_none(colors: Seq<u8>, c: u8)
    requires
        forall|i: int| 0 <= i < colors.len() ==> colors[i] != c,
    ensures
        count_of(colors, c) == 0,
    decreases colors.len(),
{
    if colors.len() > 0 {
        lemma_count_none(colors.drop_last(), c);
    }
}

/// A topological order of the nodes: every node once, each after all the
/// nodes in its `prev` list. `None` if the lists leave the graph or
/// disagree, or the graph has a cycle.
pub fn topological_order(nodes: &Vec<WorkflowNode>) -> (r: Option<Vec<usize>>)
    ensures
        r is Some <==> edges_in_bounds(graph_of(nodes@)) && edges_consistent(graph_of(nodes@))
            && acyclic(graph_of(nodes@)),
        r is Some ==> is_topological_order(graph_of(nodes@), r->0@),
{
    if !check_bounds(nodes) || !check_consistent(nodes) {
        return None;
    }
    search_order(nodes)
}

} // verus!
