//! Connectivity of a workflow graph: which nodes a breadth-first search
//! reaches from the sources along `next`, and from the sinks along `prev`.

use vstd::prelude::*;
use crate::topology::{
    acyclic, check_bounds, edges_consistent, edges_in_bounds, has_back_link, has_edge,
    is_topological_rank,
};
use crate::workflow::{graph_of, NodeView, WorkflowNode};

verus! {

/// A source: a node with nothing before it.
pub open spec fn is_source(nodes: Seq<NodeView>, v: int) -> bool {
    0 <= v < nodes.len() && nodes[v].prev.len() == 0
}

/// A sink: a node with nothing after it.
pub open spec fn is_sink(nodes: Seq<NodeView>, v: int) -> bool {
    0 <= v < nodes.len() && nodes[v].next.len() == 0
}

/// Where a search starts: forwards at the sources, backwards at the sinks.
pub open spec fn is_root(nodes: Seq<NodeView>, forward: bool, v: int) -> bool {
    if forward {
        is_source(nodes, v)
    } else {
        is_sink(nodes, v)
    }
}

/// One step of a search from `u` leads to `w`: forwards along the `next`
/// list of `u`, backwards along its `prev` list.
pub open spec fn linked(nodes: Seq<NodeView>, forward: bool, u: int, w: int) -> bool {
    &&& 0 <= u < nodes.len()
    &&& 0 <= w < nodes.len()
    &&& w <= usize::MAX
    &&& if forward {
        nodes[u].next.contains(w as usize)
    } else {
        nodes[u].prev.contains(w as usize)
    }
}

/// A walk of the search: at least one node, each step a link.
pub open spec fn is_walk(nodes: Seq<NodeView>, forward: bool, walk: Seq<int>) -> bool {
    &&& walk.len() >= 1
    &&& forall|k: int| 0 <= k < walk.len() ==> 0 <= #[trigger] walk[k] < nodes.len()
    &&& forall|k: int|
        0 <= k < walk.len() - 1 ==> linked(nodes, forward, #[trigger] walk[k], walk[k + 1])
}

/// Some walk leads from a root to `v`.
pub open spec fn reached(nodes: Seq<NodeView>, forward: bool, v: int) -> bool {
    exists|walk: Seq<int>|
        #![trigger is_walk(nodes, forward, walk)]
        is_walk(nodes, forward, walk) && is_root(nodes, forward, walk[0]) && walk[walk.len() - 1]
            == v
}

/// Every node is reached from a source along `next`, and from a sink
/// along `prev`.
pub open spec fn connected(nodes: Seq<NodeView>) -> bool {
    forall|v: int|
        0 <= v < nodes.len() ==> #[trigger] reached(nodes, true, v) && reached(nodes, false, v)
}

/// How many entries of `marks` are still false.
spec fn unmarked(marks: Seq<bool>) -> nat
    decreases marks.len(),
{
    if marks.len() == 0 {
        0
    } else {
        unmarked(marks.drop_last()) + if marks.last() {
            0nat
        } else {
            1nat
        }
    }
}

proof fn lemma_mark(marks: Seq<bool>, i: int)
    requires
        0 <= i < marks.len(),
        !marks[i],
    ensures
        unmarked(marks.update(i, true)) + 1 == unmarked(marks),
    decreases marks.len(),
{
    if i == marks.len() - 1 {
        assert(marks.update(i, true).drop_last() == marks.drop_last());
    } else {
        assert(marks.update(i, true).drop_last() == marks.drop_last().update(i, true));
        lemma_mark(marks.drop_last(), i);
    }
}

/// Every marked node is reached.
spec fn marks_sound(nodes: Seq<NodeView>, forward: bool, marks: Seq<bool>) -> bool {
    forall|v: int| 0 <= v < nodes.len() && #[trigger] marks[v] ==> reached(nodes, forward, v)
}

/// Every marked node but `skip`, once it has left the work list, has all
/// the nodes it links to marked.
spec fn marks_closed(
    nodes: Seq<NodeView>,
    forward: bool,
    marks: Seq<bool>,
    work: Seq<usize>,
    skip: int,
) -> bool {
    forall|x: int, w: int|
        #![trigger linked(nodes, forward, x, w)]
        linked(nodes, forward, x, w) && marks[x] && x != skip && !work.contains(x as usize)
            ==> marks[w]
}

/// A root reaches itself.
proof fn lemma_root_reached(nodes: Seq<NodeView>, forward: bool, v: int)
    requires
        is_root(nodes, forward, v),
    ensures
        reached(nodes, forward, v),
{
    let walk = seq![v];
    assert(is_walk(nodes, forward, walk));
}

/// A link continues a walk.
proof fn lemma_reached_step(nodes: Seq<NodeView>, forward: bool, u: int, w: int)
    requires
        reached(nodes, forward, u),
        linked(nodes, forward, u, w),
    ensures
        reached(nodes, forward, w),
{
    let walk = choose|walk: Seq<int>|
        #![trigger is_walk(nodes, forward, walk)]
        is_walk(nodes, forward, walk) && is_root(nodes, forward, walk[0]) && walk[walk.len() - 1]
            == u;
    let longer = walk.push(w);
    assert forall|k: int| 0 <= k < longer.len() - 1 implies linked(
        nodes,
        forward,
        #[trigger] longer[k],
        longer[k + 1],
    ) by {
        if k < walk.len() - 1 {
            assert(linked(nodes, forward, walk[k], walk[k + 1]));
        }
    }
    assert(is_walk(nodes, forward, longer));
}

/// Marks that hold the roots and are closed under links hold every node
/// of a walk from a root.
proof fn lemma_walk_marked(
    nodes: Seq<NodeView>,
    forward: bool,
    marks: Seq<bool>,
    walk: Seq<int>,
    k: int,
)
    requires
        marks.len() == nodes.len(),
        forall|v: int| is_root(nodes, forward, v) ==> marks[v],
        marks_closed(nodes, forward, marks, Seq::empty(), -1),
        is_walk(nodes, forward, walk),
        is_root(nodes, forward, walk[0]),
        0 <= k < walk.len(),
    ensures
        marks[walk[k]],
    decreases k,
{
    if k > 0 {
        lemma_walk_marked(nodes, forward, marks, walk, k - 1);
        assert(linked(nodes, forward, walk[k - 1], walk[k]));
    }
}

/// Marks the nodes that a breadth-first search reaches: forwards from the
/// sources along `next`, or backwards from the sinks along `prev`.
pub(crate) fn search_from_roots(nodes: &Vec<WorkflowNode>, forward: bool) -> (marks: Vec<bool>)
    requires
        edges_in_bounds(graph_of(nodes@)),
    ensures
        marks@.len() == nodes@.len(),
        forall|v: int|
            0 <= v < nodes@.len() ==> (marks@[v] <==> reached(graph_of(nodes@), forward, v)),
{
    let ghost graph = graph_of(nodes@);
    let n = nodes.len();
    let mut marks: Vec<bool> = Vec::new();
    let mut work: Vec<usize> = Vec::new();
    let mut i: usize = 0;
    while i < n
        invariant
            graph == graph_of(nodes@),
            i <= n,
            n == nodes@.len(),
            marks@.len() == i,
            forall|v: int| 0 <= v < i ==> (#[trigger] marks@[v] <==> is_root(graph, forward, v)),
            forall|k: int|
                0 <= k < work@.len() ==> (#[trigger] work@[k]) < i && marks@[work@[k] as int],
            forall|v: usize| v < i && marks@[v as int] ==> #[trigger] work@.contains(v),
        decreases n - i,
    {
        let root = if forward {
            nodes[i].prev.len() == 0
        } else {
            nodes[i].next.len() == 0
        };
        let ghost work0 = work@;
        let ghost marks0 = marks@;
        marks.push(root);
        if root {
            work.push(i);
        }
        proof {
            assert forall|v: usize| v < i + 1 && marks@[v as int] implies #[trigger] work@.contains(
                v,
            ) by {
                if v < i {
                    assert(marks0[v as int]);
                    assert(work0.contains(v));
                    let k = choose|k: int| 0 <= k < work0.len() && work0[k] == v;
                    assert(work@[k] == v);
                } else {
                    assert(work@[work0.len() as int] == v);
                }
            }
        }
        i = i + 1;
    }
    proof {
        assert forall|v: int| 0 <= v < n && #[trigger] marks@[v] implies reached(
            graph,
            forward,
            v,
        ) by {
            lemma_root_reached(graph, forward, v);
        }
        assert(marks_closed(graph, forward, marks@, work@, -1)) by {
            assert forall|x: int, w: int|
                #![trigger linked(graph, forward, x, w)]
                linked(graph, forward, x, w) && marks@[x] && !work@.contains(
                    x as usize,
                ) implies marks@[w] by {
                assert(work@.contains(x as usize));
            }
        }
    }
    while work.len() > 0
        invariant
            graph == graph_of(nodes@),
            edges_in_bounds(graph),
            n == nodes@.len(),
            marks@.len() == n,
            forall|k: int|
                0 <= k < work@.len() ==> (#[trigger] work@[k]) < n && marks@[work@[k] as int],
            forall|v: int| is_root(graph, forward, v) ==> marks@[v],
            marks_sound(graph, forward, marks@),
            marks_closed(graph, forward, marks@, work@, -1),
        decreases 2 * unmarked(marks@) + work@.len(),
    {
        let ghost work0 = work@;
        let ghost measure = 2 * unmarked(marks@) + work@.len();
        let u = work.pop().unwrap();
        assert(u == work0[work0.len() - 1]);
        assert(work0 == work@.push(u));
        assert(marks_closed(graph, forward, marks@, work@, u as int)) by {
            assert forall|x: int, w: int|
                #![trigger linked(graph, forward, x, w)]
                linked(graph, forward, x, w) && marks@[x] && x != u && !work@.contains(
                    x as usize,
                ) implies marks@[w] by {
                if work0.contains(x as usize) {
                    let k = choose|k: int| 0 <= k < work0.len() && work0[k] == x as usize;
                    assert(work@[k] == x as usize);
                }
            }
        }
        let list = if forward {
            &nodes[u].next
        } else {
            &nodes[u].prev
        };
        let mut k: usize = 0;
        while k < list.len()
            invariant
                graph == graph_of(nodes@),
                edges_in_bounds(graph),
                n == nodes@.len(),
                marks@.len() == n,
                u < n,
                list@ == (if forward {
                    graph[u as int].next
                } else {
                    graph[u as int].prev
                }),
                k <= list@.len(),
                marks@[u as int],
                forall|m: int|
                    0 <= m < work@.len() ==> (#[trigger] work@[m]) < n && marks@[work@[m] as int],
                forall|v: int| is_root(graph, forward, v) ==> marks@[v],
                marks_sound(graph, forward, marks@),
                marks_closed(graph, forward, marks@, work@, u as int),
                forall|m: int| 0 <= m < k ==> marks@[(#[trigger] list@[m]) as int],
                2 * unmarked(marks@) + work@.len() < measure,
            decreases list@.len() - k,
        {
            let w = list[k];
            assert(w < n);
            if !marks[w] {
                proof {
                    lemma_mark(marks@, w as int);
                    assert(list@.contains(w));
                    assert(linked(graph, forward, u as int, w as int));
                    lemma_reached_step(graph, forward, u as int, w as int);
                }
                let ghost marks0 = marks@;
                let ghost work1 = work@;
                marks.set(w, true);
                work.push(w);
                proof {
                    assert forall|x: int, y: int|
                        #![trigger linked(graph, forward, x, y)]
                        linked(graph, forward, x, y) && marks@[x] && x != u && !work@.contains(
                            x as usize,
                        ) implies marks@[y] by {
                        if x == w {
                            assert(work@[work1.len() as int] == w);
                        } else {
                            if work1.contains(x as usize) {
                                let m = choose|m: int|
                                    0 <= m < work1.len() && work1[m] == x as usize;
                                assert(work@[m] == x as usize);
                            }
                            assert(marks0[x]);
                        }
                    }
                }
            }
            k = k + 1;
        }
        proof {
            assert forall|x: int, y: int|
                #![trigger linked(graph, forward, x, y)]
                linked(graph, forward, x, y) && marks@[x] && !work@.contains(
                    x as usize,
                ) implies marks@[y] by {
                if x == u {
                    let m = choose|m: int| 0 <= m < list@.len() && list@[m] == y as usize;
                    assert(marks@[list@[m] as int]);
                }
            }
        }
    }
    proof {
        assert forall|v: int| 0 <= v < n && reached(graph, forward, v) implies marks@[v] by {
            let walk = choose|walk: Seq<int>|
                #![trigger is_walk(graph, forward, walk)]
                is_walk(graph, forward, walk) && is_root(graph, forward, walk[0]) && walk[walk.len()
                    - 1] == v;
            assert(work@ =~= Seq::<usize>::empty());
            lemma_walk_marked(graph, forward, marks@, walk, walk.len() - 1);
        }
    }
    marks
}

/// In a graph without a cycle every node is reached from a source.
proof fn lemma_reached_from_source(graph: Seq<NodeView>, rank: Seq<int>, v: int)
    requires
        edges_in_bounds(graph),
        edges_consistent(graph),
        is_topological_rank(graph, rank),
        0 <= v < graph.len(),
    ensures
        reached(graph, true, v),
    decreases rank[v],
{
    if graph[v].prev.len() == 0 {
        lemma_root_reached(graph, true, v);
    } else {
        let u = graph[v].prev[0] as int;
        assert(has_back_link(graph, v, u));
        assert(has_edge(graph, u, v));
        lemma_reached_from_source(graph, rank, u);
        lemma_reached_step(graph, true, u, v);
    }
}

/// In a graph without a cycle every node is reached from a sink.
proof fn lemma_reached_from_sink(graph: Seq<NodeView>, rank: Seq<int>, v: int)
    requires
        edges_in_bounds(graph),
        edges_consistent(graph),
        is_topological_rank(graph, rank),
        0 <= v < graph.len(),
    ensures
        reached(graph, false, v),
    decreases graph.len() - rank[v],
{
    if graph[v].next.len() == 0 {
        lemma_root_reached(graph, false, v);
    } else {
        let w = graph[v].next[0] as int;
        assert(has_edge(graph, v, w));
        assert(has_back_link(graph, w, v));
        lemma_reached_from_sink(graph, rank, w);
        lemma_reached_step(graph, false, w, v);
    }
}

/// A graph without a cycle whose lists agree is connected: following
/// `prev` from any node ends at a source, following `next` at a sink.
pub proof fn lemma_acyclic_is_connected(graph: Seq<NodeView>)
    requires
        edges_in_bounds(graph),
        edges_consistent(graph),
        acyclic(graph),
    ensures
        connected(graph),
{
    let rank = choose|rank: Seq<int>| is_topological_rank(graph, rank);
    assert forall|v: int| 0 <= v < graph.len() implies #[trigger] reached(graph, true, v)
        && reached(graph, false, v) by {
        lemma_reached_from_source(graph, rank, v);
        lemma_reached_from_sink(graph, rank, v);
    }
}

/// Which nodes a breadth-first search reaches: forwards from the sources
/// along `next`, or backwards from the sinks along `prev`. `None` if a
/// list leaves the graph.
pub fn reach(nodes: &Vec<WorkflowNode>, forward: bool) -> (r: Option<Vec<bool>>)
    ensures
        r is Some <==> edges_in_bounds(graph_of(nodes@)),
        r is Some ==> r->0@.len() == nodes@.len(),
        r is Some ==> forall|v: int|
            0 <= v < nodes@.len() ==> (r->0@[v] <==> reached(graph_of(nodes@), forward, v)),
{
    if !check_bounds(nodes) {
        return None;
    }
    Some(search_from_roots(nodes, forward))
}

} // verus!
