//! Structural validation of a workflow graph.

use vstd::prelude::*;
use std::collections::{HashMap, HashSet};
use crate::database::WorkflowFault;
use crate::reach::{
    connected, is_sink, is_source, lemma_acyclic_is_connected, reached, search_from_roots,
};
use crate::topology::{
    acyclic, check_bounds, check_consistent, edges_consistent, edges_in_bounds, has_back_link,
    has_edge, is_cycle, is_topological_order, search_order,
};
use crate::workflow::{build_graph, build_outcome, graph_of, NodeView, WorkflowArgs, WorkflowNode};
use crate::workflow_steps::{
    all_variants, follows, holds_kind, may_follow, spec_all_variants, WFSVariant, KIND_COUNT,
};

verus! {

/// Every parameterized step carries a value within its documented range.
pub open spec fn params_in_range(nodes: Seq<NodeView>) -> bool {
    forall|i: int| 0 <= i < nodes.len() ==> (#[trigger] nodes[i]).data.spec_in_range()
}

/// Every source is of a kind that may start a workflow.
pub open spec fn sources_legal(nodes: Seq<NodeView>) -> bool {
    forall|v: int| #[trigger] is_source(nodes, v) ==> nodes[v].data.spec_no_prev_valid()
}

/// Every sink is of a kind that may end a workflow.
pub open spec fn sinks_legal(nodes: Seq<NodeView>) -> bool {
    forall|v: int| #[trigger] is_sink(nodes, v) ==> nodes[v].data.spec_no_next_valid()
}

/// Every edge obeys the adjacency rules of the catalog, on both sides.
pub open spec fn edges_follow_rules(nodes: Seq<NodeView>) -> bool {
    forall|u: int, v: int| #[trigger]
        has_edge(nodes, u, v) ==> may_follow(nodes[u].data, nodes[v].data)
}

/// The first fault that validation finds in a graph, `None` for a valid
/// one. The checks run in this order: the graph has a node; every
/// parameter is in range; the edge lists stay within the graph and agree
/// with each other; there is no cycle; every node is connected to a source
/// and to a sink; sources, then sinks, are of a legal kind; every edge
/// obeys the adjacency rules.
pub open spec fn validation_fault(nodes: Seq<NodeView>) -> Option<WorkflowFault> {
    if nodes.len() == 0 {
        Some(WorkflowFault::EmptyWorkflow)
    } else if !params_in_range(nodes) {
        Some(WorkflowFault::OutOfRangeParameter)
    } else if !edges_in_bounds(nodes) || !edges_consistent(nodes) {
        Some(WorkflowFault::CatalogMismatch)
    } else if !acyclic(nodes) {
        Some(WorkflowFault::Cycle)
    } else if !connected(nodes) {
        Some(WorkflowFault::Disconnected)
    } else if !sources_legal(nodes) {
        Some(WorkflowFault::IllegalSource)
    } else if !sinks_legal(nodes) {
        Some(WorkflowFault::IllegalSink)
    } else if !edges_follow_rules(nodes) {
        Some(WorkflowFault::CatalogMismatch)
    } else {
        None
    }
}

/// A valid workflow graph: a non-empty acyclic graph whose `prev` and
/// `next` lists agree, whose edges obey the adjacency rules, whose nodes
/// are all connected to a source and to a sink, whose sources and sinks
/// are of a legal kind, and whose parameters are in range.
pub open spec fn valid_graph(nodes: Seq<NodeView>) -> bool {
    &&& nodes.len() > 0
    &&& params_in_range(nodes)
    &&& edges_in_bounds(nodes)
    &&& edges_consistent(nodes)
    &&& acyclic(nodes)
    &&& connected(nodes)
    &&& sources_legal(nodes)
    &&& sinks_legal(nodes)
    &&& edges_follow_rules(nodes)
}

fn check_params(nodes: &Vec<WorkflowNode>) -> (r: bool)
    ensures
        r == params_in_range(graph_of(nodes@)),
{
    let ghost graph = graph_of(nodes@);
    let mut i: usize = 0;
    while i < nodes.len()
        invariant
            graph == graph_of(nodes@),
            i <= nodes@.len(),
            forall|a: int| 0 <= a < i ==> (#[trigger] graph[a]).data.spec_in_range(),
        decreases nodes@.len() - i,
    {
        if !nodes[i].data.in_range() {
            assert(graph[i as int].data == nodes@[i as int].data);
            return false;
        }
        i = i + 1;
    }
    true
}

fn check_connected(nodes: &Vec<WorkflowNode>) -> (r: bool)
    requires
        edges_in_bounds(graph_of(nodes@)),
    ensures
        r == connected(graph_of(nodes@)),
{
    let ghost graph = graph_of(nodes@);
    let forwards = search_from_roots(nodes, true);
    let backwards = search_from_roots(nodes, false);
    let mut v: usize = 0;
    while v < nodes.len()
        invariant
            graph == graph_of(nodes@),
            v <= nodes@.len(),
            forwards@.len() == nodes@.len(),
            backwards@.len() == nodes@.len(),
            forall|x: int|
                0 <= x < nodes@.len() ==> (forwards@[x] <==> reached(graph, true, x)),
            forall|x: int|
                0 <= x < nodes@.len() ==> (backwards@[x] <==> reached(graph, false, x)),
            forall|x: int| 0 <= x < v ==> #[trigger] reached(graph, true, x),
            forall|x: int| 0 <= x < v ==> #[trigger] reached(graph, false, x),
        decreases nodes@.len() - v,
    {
        if !forwards[v] || !backwards[v] {
            assert(!reached(graph, true, v as int) || !reached(graph, false, v as int));
            return false;
        }
        assert(reached(graph, true, v as int) && reached(graph, false, v as int));
        v = v + 1;
    }
    true
}

fn check_sources(nodes: &Vec<WorkflowNode>) -> (r: bool)
    ensures
        r == sources_legal(graph_of(nodes@)),
{
    let ghost graph = graph_of(nodes@);
    let mut v: usize = 0;
    while v < nodes.len()
        invariant
            graph == graph_of(nodes@),
            v <= nodes@.len(),
            forall|x: int|
                x < v && #[trigger] is_source(graph, x) ==> graph[x].data.spec_no_prev_valid(),
        decreases nodes@.len() - v,
    {
        if nodes[v].prev.len() == 0 && !nodes[v].data.no_prev_valid() {
            assert(is_source(graph, v as int));
            return false;
        }
        v = v + 1;
    }
    true
}

fn check_sinks(nodes: &Vec<WorkflowNode>) -> (r: bool)
    ensures
        r == sinks_legal(graph_of(nodes@)),
{
    let ghost graph = graph_of(nodes@);
    let mut v: usize = 0;
    while v < nodes.len()
        invariant
            graph == graph_of(nodes@),
            v <= nodes@.len(),
            forall|x: int|
                x < v && #[trigger] is_sink(graph, x) ==> graph[x].data.spec_no_next_valid(),
        decreases nodes@.len() - v,
    {
        if nodes[v].next.len() == 0 && !nodes[v].data.no_next_valid() {
            assert(is_sink(graph, v as int));
            return false;
        }
        v = v + 1;
    }
    true
}

fn check_rules(nodes: &Vec<WorkflowNode>) -> (r: bool)
    requires
        edges_in_bounds(graph_of(nodes@)),
    ensures
        r == edges_follow_rules(graph_of(nodes@)),
{
    let ghost graph = graph_of(nodes@);
    let n = nodes.len();
    let mut i: usize = 0;
    while i < n
        invariant
            graph == graph_of(nodes@),
            i <= n,
            n == nodes@.len(),
            edges_in_bounds(graph),
            forall|a: int, b: int|
                0 <= a < i && #[trigger] has_edge(graph, a, b) ==> may_follow(
                    graph[a].data,
                    graph[b].data,
                ),
        decreases n - i,
    {
        let mut k: usize = 0;
        while k < nodes[i].next.len()
            invariant
                graph == graph_of(nodes@),
                i < n,
                n == nodes@.len(),
                edges_in_bounds(graph),
                k <= graph[i as int].next.len(),
                forall|m: int|
                    0 <= m < k ==> may_follow(
                        graph[i as int].data,
                        graph[(#[trigger] graph[i as int].next[m]) as int].data,
                    ),
            decreases graph[i as int].next.len() - k,
        {
            let j = nodes[i].next[k];
            if !follows(&nodes[i].data, &nodes[j].data) {
                assert(has_edge(graph, i as int, j as int));
                return false;
            }
            k = k + 1;
        }
        proof {
            assert forall|a: int, b: int|
                0 <= a < i + 1 && #[trigger] has_edge(graph, a, b) implies may_follow(
                graph[a].data,
                graph[b].data,
            ) by {
                if a == i {
                    let m = choose|m: int|
                        0 <= m < graph[a].next.len() && graph[a].next[m] == b as usize;
                    assert(graph[i as int].next[m] == b as usize);
                }
            }
        }
        i = i + 1;
    }
    true
}

/// Validates a graph and, for a valid one, hands out a topological order
/// of its nodes.
pub fn ordered_workflow(nodes: &Vec<WorkflowNode>) -> (r: Result<Vec<usize>, WorkflowFault>)
    ensures
        match validation_fault(graph_of(nodes@)) {
            Some(fault) => r == Err::<Vec<usize>, WorkflowFault>(fault),
            None => r is Ok && is_topological_order(graph_of(nodes@), r->Ok_0@),
        },
        r is Ok <==> valid_graph(graph_of(nodes@)),
        r is Err && r->Err_0 == WorkflowFault::Cycle ==> exists|path: Seq<int>|
            is_cycle(graph_of(nodes@), path),
{
    if nodes.len() == 0 {
        return Err(WorkflowFault::EmptyWorkflow);
    }
    if !check_params(nodes) {
        return Err(WorkflowFault::OutOfRangeParameter);
    }
    if !check_bounds(nodes) {
        return Err(WorkflowFault::CatalogMismatch);
    }
    if !check_consistent(nodes) {
        return Err(WorkflowFault::CatalogMismatch);
    }
    let order = match search_order(nodes) {
        Some(order) => order,
        None => {
            return Err(WorkflowFault::Cycle);
        },
    };
    if !check_connected(nodes) {
        return Err(WorkflowFault::Disconnected);
    }
    if !check_sources(nodes) {
        return Err(WorkflowFault::IllegalSource);
    }
    if !check_sinks(nodes) {
        return Err(WorkflowFault::IllegalSink);
    }
    if !check_rules(nodes) {
        return Err(WorkflowFault::CatalogMismatch);
    }
    Ok(order)
}

/// Validates a graph: `Ok` for a valid one, else the first fault found.
pub fn validate_workflow(nodes: &Vec<WorkflowNode>) -> (r: Result<(), WorkflowFault>)
    ensures
        r == match validation_fault(graph_of(nodes@)) {
            Some(fault) => Err::<(), WorkflowFault>(fault),
            None => Ok(()),
        },
        r is Ok <==> valid_graph(graph_of(nodes@)),
        r is Err && r->Err_0 == WorkflowFault::Cycle ==> exists|path: Seq<int>|
            is_cycle(graph_of(nodes@), path),
{
    match ordered_workflow(nodes) {
        Ok(_) => Ok(()),
        Err(fault) => Err(fault),
    }
}

/// The validation rules of one kind of step.
pub struct ValidationRule {
    /// Can a step of this kind start the workflow?
    pub can_start_here: bool,
    /// Can a step of this kind end the workflow?
    pub can_end_here: bool,
    /// The ids of the kinds that may come next.
    pub valid_next: HashSet<usize>,
    /// The ids of the kinds that may come before.
    pub valid_prev: HashSet<usize>,
}

/// The ids of the kinds of the steps in `list`.
pub open spec fn kind_ids(list: Seq<WFSVariant>) -> Set<usize> {
    Set::new(
        |id: usize| exists|k: int| 0 <= k < list.len() && (#[trigger] list[k]).spec_id() == id,
    )
}

/// `rule` states what the catalog says of the kind of `step`.
pub open spec fn is_rule_of(rule: ValidationRule, step: WFSVariant) -> bool {
    &&& rule.can_start_here == step.spec_no_prev_valid()
    &&& rule.can_end_here == step.spec_no_next_valid()
    &&& rule.valid_next@ == kind_ids(step.spec_valid_next())
    &&& rule.valid_prev@ == kind_ids(step.spec_valid_prev())
}

/// Every entry of every `next` list is of a kind that the node's own
/// kind allows next.
pub open spec fn next_lists_allowed(nodes: Seq<NodeView>) -> bool {
    forall|i: int, k: int|
        0 <= i < nodes.len() && 0 <= k < nodes[i].next.len() ==> holds_kind(
            nodes[i].data.spec_valid_next(),
            nodes[(#[trigger] nodes[i].next[k]) as int].data,
        )
}

/// Every entry of every `prev` list is of a kind that the node's own
/// kind allows before it.
pub open spec fn prev_lists_allowed(nodes: Seq<NodeView>) -> bool {
    forall|i: int, k: int|
        0 <= i < nodes.len() && 0 <= k < nodes[i].prev.len() ==> holds_kind(
            nodes[i].data.spec_valid_prev(),
            nodes[(#[trigger] nodes[i].prev[k]) as int].data,
        )
}

/// The graph follows the validation rules: its lists stay within the
/// graph, each node's neighbours are of kinds that the node's rule
/// allows, and only kinds that may do so start or end the workflow.
pub open spec fn rules_followed(nodes: Seq<NodeView>) -> bool {
    &&& edges_in_bounds(nodes)
    &&& sources_legal(nodes)
    &&& sinks_legal(nodes)
    &&& next_lists_allowed(nodes)
    &&& prev_lists_allowed(nodes)
}

/// The ids of the kinds of the steps in `list`, as a set.
fn kind_id_set(list: &Vec<WFSVariant>) -> (set: HashSet<usize>)
    ensures
        set@ == kind_ids(list@),
{
    let mut set: HashSet<usize> = HashSet::new();
    let mut k: usize = 0;
    while k < list.len()
        invariant
            k <= list@.len(),
            set@ == kind_ids(list@.subrange(0, k as int)),
        decreases list@.len() - k,
    {
        set.insert(list[k].id() as usize);
        proof {
            let shorter = list@.subrange(0, k as int);
            let longer = list@.subrange(0, k + 1);
            let id = list@[k as int].spec_id() as usize;
            assert forall|x: usize| kind_ids(longer).contains(x) <==> kind_ids(shorter).insert(
                id,
            ).contains(x) by {
                if kind_ids(shorter).contains(x) {
                    let a = choose|a: int|
                        0 <= a < shorter.len() && (#[trigger] shorter[a]).spec_id() == x;
                    assert(longer[a].spec_id() == x);
                }
                if x == id {
                    assert(longer[k as int].spec_id() == x);
                }
                if kind_ids(longer).contains(x) {
                    let a = choose|a: int|
                        0 <= a < longer.len() && (#[trigger] longer[a]).spec_id() == x;
                    if a < k {
                        assert(shorter[a].spec_id() == x);
                    }
                }
            }
            assert(kind_ids(longer) =~= kind_ids(shorter).insert(id));
        }
        k = k + 1;
    }
    assert(list@.subrange(0, list@.len() as int) == list@);
    set
}

/// The validation rules of every kind of step, under the id of the kind,
/// as the catalog gives them.
pub fn get_validation_rules() -> (rules: HashMap<u32, ValidationRule>)
    ensures
        forall|id: u32| rules@.contains_key(id) <==> id < KIND_COUNT,
        forall|id: u32|
            id < KIND_COUNT ==> is_rule_of(#[trigger] rules@[id], spec_all_variants()[id as int]),
{
    let mut rules: HashMap<u32, ValidationRule> = HashMap::new();
    let variants = all_variants();
    let mut k: usize = 0;
    while k < variants.len()
        invariant
            k <= variants@.len(),
            variants@ == spec_all_variants(),
            forall|id: u32| rules@.contains_key(id) <==> id < k,
            forall|id: u32|
                id < k ==> is_rule_of(#[trigger] rules@[id], spec_all_variants()[id as int]),
        decreases variants@.len() - k,
    {
        let variant = variants[k];
        let rule = ValidationRule {
            can_start_here: variant.no_prev_valid(),
            can_end_here: variant.no_next_valid(),
            valid_next: kind_id_set(&variant.valid_next()),
            valid_prev: kind_id_set(&variant.valid_prev()),
        };
        assert(variant.spec_id() == k);
        rules.insert(variant.id(), rule);
        k = k + 1;
    }
    rules
}

/// Does the graph follow the validation rules?
pub fn follows_validation_rules(steps: &Vec<WorkflowNode>) -> (r: bool)
    ensures
        r == rules_followed(graph_of(steps@)),
{
    let rules = get_validation_rules();
    if !check_bounds(steps) {
        return false;
    }
    if !check_sources(steps) {
        return false;
    }
    if !check_sinks(steps) {
        return false;
    }
    let n = steps.len();
    let ghost graph = graph_of(steps@);
    let mut i: usize = 0;
    while i < n
        invariant
            i <= n,
            n == steps@.len(),
            graph == graph_of(steps@),
            edges_in_bounds(graph),
            forall|id: u32| rules@.contains_key(id) <==> id < KIND_COUNT,
            forall|id: u32|
                id < KIND_COUNT ==> is_rule_of(
                    #[trigger] rules@[id],
                    spec_all_variants()[id as int],
                ),
            forall|a: int, k: int|
                0 <= a < i && 0 <= k < graph[a].next.len() ==> holds_kind(
                    graph[a].data.spec_valid_next(),
                    graph[(#[trigger] graph[a].next[k]) as int].data,
                ),
            forall|a: int, k: int|
                0 <= a < i && 0 <= k < graph[a].prev.len() ==> holds_kind(
                    graph[a].data.spec_valid_prev(),
                    graph[(#[trigger] graph[a].prev[k]) as int].data,
                ),
        decreases n - i,
    {
        let step = &steps[i];
        let step_id = step.data.id();
        let rule = match rules.get(&step_id) {
            Some(rule) => rule,
            None => {
                return false;
            },
        };
        assert(is_rule_of(*rule, spec_all_variants()[step_id as int]));
        assert(spec_all_variants()[step_id as int].spec_valid_next()
            == graph[i as int].data.spec_valid_next());
        assert(spec_all_variants()[step_id as int].spec_valid_prev()
            == graph[i as int].data.spec_valid_prev());
        let mut k: usize = 0;
        while k < step.next.len()
            invariant
                i < n,
                n == steps@.len(),
                graph == graph_of(steps@),
                edges_in_bounds(graph),
                *step == steps@[i as int],
                k <= step.next@.len(),
                rule.valid_next@ == kind_ids(graph[i as int].data.spec_valid_next()),
                forall|m: int|
                    0 <= m < k ==> holds_kind(
                        graph[i as int].data.spec_valid_next(),
                        graph[(#[trigger] graph[i as int].next[m]) as int].data,
                    ),
            decreases step.next@.len() - k,
        {
            let j = step.next[k];
            assert(j == graph[i as int].next[k as int]);
            let next_step_id = steps[j].data.id() as usize;
            if !rule.valid_next.contains(&next_step_id) {
                return false;
            }
            k = k + 1;
        }
        let mut k: usize = 0;
        while k < step.prev.len()
            invariant
                i < n,
                n == steps@.len(),
                graph == graph_of(steps@),
                edges_in_bounds(graph),
                *step == steps@[i as int],
                k <= step.prev@.len(),
                rule.valid_prev@ == kind_ids(graph[i as int].data.spec_valid_prev()),
                forall|m: int|
                    0 <= m < k ==> holds_kind(
                        graph[i as int].data.spec_valid_prev(),
                        graph[(#[trigger] graph[i as int].prev[m]) as int].data,
                    ),
            decreases step.prev@.len() - k,
        {
            let j = step.prev[k];
            assert(j == graph[i as int].prev[k as int]);
            let prev_step_id = steps[j].data.id() as usize;
            if !rule.valid_prev.contains(&prev_step_id) {
                return false;
            }
            k = k + 1;
        }
        i = i + 1;
    }
    true
}

/// Would a workflow with these steps be accepted? That is the case if
/// it has a step, every step names a kind of the catalog with the
/// parameters of that kind, and the graph that the adjacency rules infer
/// is valid.
pub fn is_valid_workflow(workflow: &WorkflowArgs) -> (r: bool)
    ensures
        r == build_outcome(workflow.WorkflowSteps@) is Ok,
{
    match build_graph(&workflow.WorkflowSteps) {
        Ok(_) => true,
        Err(_) => false,
    }
}

/// In a graph whose lists agree, following the validation rules is the
/// same as having legal sources and sinks and edges that obey the
/// adjacency rules.
pub proof fn lemma_rules_followed(nodes: Seq<NodeView>)
    requires
        edges_in_bounds(nodes),
        edges_consistent(nodes),
    ensures
        rules_followed(nodes) <==> sources_legal(nodes) && sinks_legal(nodes)
            && edges_follow_rules(nodes),
{
    if next_lists_allowed(nodes) && prev_lists_allowed(nodes) {
        assert forall|u: int, v: int| #[trigger] has_edge(nodes, u, v) implies may_follow(
            nodes[u].data,
            nodes[v].data,
        ) by {
            let k = choose|k: int| 0 <= k < nodes[u].next.len() && nodes[u].next[k] == v as usize;
            assert(holds_kind(
                nodes[u].data.spec_valid_next(),
                nodes[nodes[u].next[k] as int].data,
            ));
            assert(has_back_link(nodes, v, u));
            let m = choose|m: int| 0 <= m < nodes[v].prev.len() && nodes[v].prev[m] == u as usize;
            assert(holds_kind(
                nodes[v].data.spec_valid_prev(),
                nodes[nodes[v].prev[m] as int].data,
            ));
        }
    }
    if edges_follow_rules(nodes) {
        assert forall|i: int, k: int|
            0 <= i < nodes.len() && 0 <= k < nodes[i].next.len() implies holds_kind(
            nodes[i].data.spec_valid_next(),
            nodes[(#[trigger] nodes[i].next[k]) as int].data,
        ) by {
            assert(has_edge(nodes, i, nodes[i].next[k] as int));
        }
        assert forall|i: int, k: int|
            0 <= i < nodes.len() && 0 <= k < nodes[i].prev.len() implies holds_kind(
            nodes[i].data.spec_valid_prev(),
            nodes[(#[trigger] nodes[i].prev[k]) as int].data,
        ) by {
            assert(has_back_link(nodes, i, nodes[i].prev[k] as int));
            assert(has_edge(nodes, nodes[i].prev[k] as int, i));
        }
    }
}

/// Validation never finds a graph disconnected: once the lists agree and
/// there is no cycle, every node is connected to a source and to a sink.
pub proof fn lemma_never_disconnected(nodes: Seq<NodeView>)
    ensures
        validation_fault(nodes) != Some(WorkflowFault::Disconnected),
{
    if edges_in_bounds(nodes) && edges_consistent(nodes) && acyclic(nodes) {
        lemma_acyclic_is_connected(nodes);
    }
}

} // verus!
