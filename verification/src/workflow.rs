//! Workflows as graphs of steps, and the builder that infers a workflow's
//! edges from the catalog's adjacency rules.

use vstd::prelude::*;
use crate::database::{CustomError, DocID, WorkflowFault};
use crate::topology::{edges_consistent, edges_in_bounds, has_back_link, has_edge};
use crate::validation::{edges_follow_rules, ordered_workflow, valid_graph, validation_fault};
use crate::workflow_steps::{
    follows, get_workflow_step_by_id, may_follow, spec_step_by_id, AssignedWorkflowStepArgs,
    WFSVariant,
};

verus! {

/// A node in the workflow graph.
#[derive(Debug, Clone)]
pub struct WorkflowNode {
    pub data: WFSVariant,
    /// Indices of the nodes that come directly before this one.
    pub prev: Vec<usize>,
    /// Indices of the nodes that come directly after this one.
    pub next: Vec<usize>,
}

/// A workflow, represented as a graph of nodes.
#[derive(Debug, Clone)]
pub struct Workflow {
    pub id: Option<DocID>,
    pub title: String,
    pub steps: Vec<WorkflowNode>,
}

/// Arguments for creating a new workflow, as a client sends them.
#[allow(non_snake_case)]
#[derive(Debug, Clone)]
pub struct WorkflowArgs {
    pub id: Option<DocID>,
    pub Title: String,
    pub WorkflowSteps: Vec<AssignedWorkflowStepArgs>,
}

/// A node as a mathematical value: its step and its two lists of indices.
pub struct NodeView {
    pub data: WFSVariant,
    pub prev: Seq<usize>,
    pub next: Seq<usize>,
}

/// A workflow as a mathematical value.
pub struct WorkflowView {
    pub id: Option<DocID>,
    pub title: Seq<char>,
    pub steps: Seq<NodeView>,
}

impl View for WorkflowNode {
    type V = NodeView;

    open spec fn view(&self) -> NodeView {
        NodeView { data: self.data, prev: self.prev@, next: self.next@ }
    }
}

impl View for Workflow {
    type V = WorkflowView;

    open spec fn view(&self) -> WorkflowView {
        WorkflowView { id: self.id, title: self.title@, steps: graph_of(self.steps@) }
    }
}

impl Workflow {
    /// The workflow is well formed: its graph is a valid workflow graph.
    pub open spec fn wf(&self) -> bool {
        valid_graph(self@.steps)
    }
}

/// The graph that a list of nodes stands for.
pub open spec fn graph_of(nodes: Seq<WorkflowNode>) -> Seq<NodeView> {
    Seq::new(nodes.len(), |i: int| nodes[i]@)
}

/// The steps that the nodes carry, in node order.
pub open spec fn steps_of(nodes: Seq<NodeView>) -> Seq<WFSVariant> {
    Seq::new(nodes.len(), |i: int| nodes[i].data)
}

/// The graph inferred from `steps`: one node per step, with exactly the
/// inferred edges, each list ascending.
pub open spec fn inferred_graph(steps: Seq<WFSVariant>) -> Seq<NodeView> {
    Seq::new(
        steps.len(),
        |i: int|
            NodeView {
                data: steps[i],
                prev: predecessors_below(steps, i, steps.len()),
                next: successors_below(steps, i, steps.len()),
            },
    )
}

/// The inferred edge `i -> j`: two different positions of `steps` whose
/// kinds the adjacency rules allow to follow one another.
pub open spec fn inferred_edge(steps: Seq<WFSVariant>, i: int, j: int) -> bool {
    &&& 0 <= i < steps.len()
    &&& 0 <= j < steps.len()
    &&& i != j
    &&& may_follow(steps[i], steps[j])
}

/// The positions `j < m` with an inferred edge `i -> j`, ascending.
pub open spec fn successors_below(steps: Seq<WFSVariant>, i: int, m: nat) -> Seq<usize>
    decreases m,
{
    if m == 0 {
        Seq::empty()
    } else {
        let rest = successors_below(steps, i, (m - 1) as nat);
        if inferred_edge(steps, i, m - 1) {
            rest.push((m - 1) as usize)
        } else {
            rest
        }
    }
}

/// The positions `j < m` with an inferred edge `j -> i`, ascending.
pub open spec fn predecessors_below(steps: Seq<WFSVariant>, i: int, m: nat) -> Seq<usize>
    decreases m,
{
    if m == 0 {
        Seq::empty()
    } else {
        let rest = predecessors_below(steps, i, (m - 1) as nat);
        if inferred_edge(steps, m - 1, i) {
            rest.push((m - 1) as usize)
        } else {
            rest
        }
    }
}

/// `after` is `before` with every inferred edge appended: each node keeps
/// its step and what its lists held, followed by its inferred neighbours
/// in ascending order.
pub open spec fn edges_filled(before: Seq<NodeView>, after: Seq<NodeView>) -> bool {
    &&& after.len() == before.len()
    &&& forall|i: int|
        0 <= i < before.len() ==> {
            &&& (#[trigger] after[i]).data == before[i].data
            &&& after[i].prev == before[i].prev + predecessors_below(
                steps_of(before),
                i,
                before.len(),
            )
            &&& after[i].next == before[i].next + successors_below(
                steps_of(before),
                i,
                before.len(),
            )
        }
}

/// The graph that filling in the inferred edges makes of `before`.
pub open spec fn filled_graph(before: Seq<NodeView>) -> Seq<NodeView> {
    Seq::new(
        before.len(),
        |i: int|
            NodeView {
                data: before[i].data,
                prev: before[i].prev + predecessors_below(steps_of(before), i, before.len()),
                next: before[i].next + successors_below(steps_of(before), i, before.len()),
            },
    )
}

/// What `successors_below` holds: exactly the inferred successors below
/// `m`, in strictly ascending order.
pub proof fn lemma_successors_below(steps: Seq<WFSVariant>, i: int, m: nat)
    requires
        m <= steps.len() <= usize::MAX,
    ensures
        forall|k: int|
            0 <= k < successors_below(steps, i, m).len() ==> {
                &&& (#[trigger] successors_below(steps, i, m)[k]) < m
                &&& inferred_edge(steps, i, successors_below(steps, i, m)[k] as int)
            },
        forall|j: int|
            0 <= j < m && inferred_edge(steps, i, j) ==> successors_below(steps, i, m).contains(
                j as usize,
            ),
        forall|k1: int, k2: int|
            0 <= k1 < k2 < successors_below(steps, i, m).len() ==> successors_below(
                steps,
                i,
                m,
            )[k1] < successors_below(steps, i, m)[k2],
    decreases m,
{
    if m > 0 {
        let rest = successors_below(steps, i, (m - 1) as nat);
        lemma_successors_below(steps, i, (m - 1) as nat);
        let all = successors_below(steps, i, m);
        assert forall|j: int| 0 <= j < m && inferred_edge(steps, i, j) implies all.contains(
            j as usize,
        ) by {
            if j < m - 1 {
                let k = choose|k: int| 0 <= k < rest.len() && rest[k] == j as usize;
                assert(all[k] == j as usize);
            } else {
                assert(all[all.len() - 1] == j as usize);
            }
        }
    }
}

/// What `predecessors_below` holds: exactly the inferred predecessors
/// below `m`, in strictly ascending order.
pub proof fn lemma_predecessors_below(steps: Seq<WFSVariant>, i: int, m: nat)
    requires
        m <= steps.len() <= usize::MAX,
    ensures
        forall|k: int|
            0 <= k < predecessors_below(steps, i, m).len() ==> {
                &&& (#[trigger] predecessors_below(steps, i, m)[k]) < m
                &&& inferred_edge(steps, predecessors_below(steps, i, m)[k] as int, i)
            },
        forall|j: int|
            0 <= j < m && inferred_edge(steps, j, i) ==> predecessors_below(steps, i, m).contains(
                j as usize,
            ),
        forall|k1: int, k2: int|
            0 <= k1 < k2 < predecessors_below(steps, i, m).len() ==> predecessors_below(
                steps,
                i,
                m,
            )[k1] < predecessors_below(steps, i, m)[k2],
    decreases m,
{
    if m > 0 {
        let rest = predecessors_below(steps, i, (m - 1) as nat);
        lemma_predecessors_below(steps, i, (m - 1) as nat);
        let all = predecessors_below(steps, i, m);
        assert forall|j: int| 0 <= j < m && inferred_edge(steps, j, i) implies all.contains(
            j as usize,
        ) by {
            if j < m - 1 {
                let k = choose|k: int| 0 <= k < rest.len() && rest[k] == j as usize;
                assert(all[k] == j as usize);
            } else {
                assert(all[all.len() - 1] == j as usize);
            }
        }
    }
}

/// A copy of a list of indices.
fn copy_indices(list: &Vec<usize>) -> (r: Vec<usize>)
    ensures
        r@ == list@,
{
    let mut copy: Vec<usize> = Vec::new();
    let mut k: usize = 0;
    while k < list.len()
        invariant
            k <= list@.len(),
            copy@ == list@.subrange(0, k as int),
        decreases list@.len() - k,
    {
        copy.push(list[k]);
        assert(list@.subrange(0, k + 1) == list@.subrange(0, k as int).push(list@[k as int]));
        k = k + 1;
    }
    assert(list@.subrange(0, list@.len() as int) == list@);
    copy
}

/// Adds to each node the edges that the adjacency rules infer: `i -> j`
/// for every two different nodes where the kind of `j` may follow the
/// kind of `i` and the kind of `i` may precede the kind of `j`. Each
/// node's lists grow in ascending index order. The graph that comes out
/// is not validated yet.
fn append_edges(steps: Vec<WorkflowNode>) -> (filled: Vec<WorkflowNode>)
    ensures
        edges_filled(graph_of(steps@), graph_of(filled@)),
        graph_of(filled@) == filled_graph(graph_of(steps@)),
{
    let n = steps.len();
    let ghost kinds = steps_of(graph_of(steps@));
    let mut new_steps: Vec<WorkflowNode> = Vec::new();
    let mut i: usize = 0;
    while i < n
        invariant
            i <= n,
            n == steps@.len(),
            kinds == steps_of(graph_of(steps@)),
            new_steps@.len() == i,
            forall|a: int|
                0 <= a < i ==> {
                    &&& (#[trigger] new_steps@[a]).data == steps@[a].data
                    &&& new_steps@[a].prev@ == steps@[a].prev@ + predecessors_below(
                        kinds,
                        a,
                        n as nat,
                    )
                    &&& new_steps@[a].next@ == steps@[a].next@ + successors_below(
                        kinds,
                        a,
                        n as nat,
                    )
                },
        decreases n - i,
    {
        let mut prev = copy_indices(&steps[i].prev);
        let mut next = copy_indices(&steps[i].next);
        let mut j: usize = 0;
        while j < n
            invariant
                i < n,
                j <= n,
                n == steps@.len(),
                kinds == steps_of(graph_of(steps@)),
                prev@ == steps@[i as int].prev@ + predecessors_below(kinds, i as int, j as nat),
                next@ == steps@[i as int].next@ + successors_below(kinds, i as int, j as nat),
            decreases n - j,
        {
            if i != j {
                if follows(&steps[j].data, &steps[i].data) {
                    prev.push(j);
                }
                if follows(&steps[i].data, &steps[j].data) {
                    next.push(j);
                }
            }
            assert(predecessors_below(kinds, i as int, (j + 1) as nat) == if inferred_edge(
                kinds,
                j as int,
                i as int,
            ) {
                predecessors_below(kinds, i as int, j as nat).push(j)
            } else {
                predecessors_below(kinds, i as int, j as nat)
            });
            assert(successors_below(kinds, i as int, (j + 1) as nat) == if inferred_edge(
                kinds,
                i as int,
                j as int,
            ) {
                successors_below(kinds, i as int, j as nat).push(j)
            } else {
                successors_below(kinds, i as int, j as nat)
            });
            j = j + 1;
        }
        new_steps.push(WorkflowNode { data: steps[i].data, prev, next });
        i = i + 1;
    }
    proof {
        let before = graph_of(steps@);
        let after = graph_of(new_steps@);
        assert forall|a: int| 0 <= a < after.len() implies #[trigger] after[a] == filled_graph(
            before,
        )[a] by {
            assert(before[a] == steps@[a]@);
            assert(after[a] == new_steps@[a]@);
        }
        assert(after =~= filled_graph(before));
    }
    new_steps
}

/// Given a list of nodes, fills in the edges of the graph and validates
/// it. To each node the edges are added that the adjacency rules infer:
/// `i -> j` for every two different nodes where the kind of `j` may
/// follow the kind of `i` and the kind of `i` may precede the kind of
/// `j`; each node's lists grow in ascending index order. Fails exactly
/// when the filled graph is no valid workflow graph: when it is empty,
/// holds a parameter out of range or a cycle, starts or ends with a kind
/// that may not, or, by what the lists held before, leaves the graph or
/// breaks the rules.
pub fn fill_edges(steps: Vec<WorkflowNode>) -> (r: Result<Vec<WorkflowNode>, ()>)
    ensures
        r is Err <==> validation_fault(filled_graph(graph_of(steps@))) is Some,
        r is Ok ==> {
            &&& edges_filled(graph_of(steps@), graph_of(r->Ok_0@))
            &&& graph_of(r->Ok_0@) == filled_graph(graph_of(steps@))
            &&& valid_graph(graph_of(r->Ok_0@))
        },
{
    let filled = append_edges(steps);
    match ordered_workflow(&filled) {
        Ok(_) => Ok(filled),
        Err(_) => Err(()),
    }
}

/// The inferred graph is well formed whatever the steps are: its lists
/// stay within the graph, `j` is in `next[i]` exactly when `i` is in
/// `prev[j]`, and every edge obeys the adjacency rules on both sides.
pub proof fn lemma_inferred_graph_wellformed(steps: Seq<WFSVariant>)
    requires
        steps.len() <= usize::MAX,
    ensures
        edges_in_bounds(inferred_graph(steps)),
        edges_consistent(inferred_graph(steps)),
        edges_follow_rules(inferred_graph(steps)),
        forall|i: int, j: int|
            has_edge(inferred_graph(steps), i, j) <==> inferred_edge(steps, i, j),
{
    let graph = inferred_graph(steps);
    let n = steps.len();
    assert forall|i: int, j: int| has_edge(graph, i, j) <==> inferred_edge(steps, i, j) by {
        if 0 <= i < n {
            lemma_successors_below(steps, i, n);
            if has_edge(graph, i, j) {
                let k = choose|k: int|
                    0 <= k < graph[i].next.len() && graph[i].next[k] == j as usize;
                assert(inferred_edge(steps, i, successors_below(steps, i, n)[k] as int));
            }
        }
    }
    assert forall|i: int, j: int| has_back_link(graph, j, i) <==> inferred_edge(steps, i, j) by {
        if 0 <= j < n {
            lemma_predecessors_below(steps, j, n);
            if has_back_link(graph, j, i) {
                let k = choose|k: int|
                    0 <= k < graph[j].prev.len() && graph[j].prev[k] == i as usize;
                assert(inferred_edge(steps, predecessors_below(steps, j, n)[k] as int, j));
            }
        }
    }
    assert forall|i: int, k: int| 0 <= i < graph.len() && 0 <= k < graph[i].prev.len() implies (
    #[trigger] graph[i].prev[k]) < graph.len() by {
        lemma_predecessors_below(steps, i, n);
    }
    assert forall|i: int, k: int| 0 <= i < graph.len() && 0 <= k < graph[i].next.len() implies (
    #[trigger] graph[i].next[k]) < graph.len() by {
        lemma_successors_below(steps, i, n);
    }
    assert forall|u: int, v: int| #[trigger] has_edge(graph, u, v) implies may_follow(
        graph[u].data,
        graph[v].data,
    ) by {
        assert(inferred_edge(steps, u, v));
    }
}

/// The faults of an inferred graph are those of its steps and shape: it
/// is never found to mismatch the catalog.
pub proof fn lemma_inferred_graph_matches_catalog(steps: Seq<WFSVariant>)
    requires
        steps.len() <= usize::MAX,
    ensures
        validation_fault(inferred_graph(steps)) != Some(WorkflowFault::CatalogMismatch),
{
    lemma_inferred_graph_wellformed(steps);
}

/// The step that one argument stands for.
pub open spec fn resolved_step(arg: AssignedWorkflowStepArgs) -> Result<WFSVariant, CustomError> {
    spec_step_by_id(arg.WorkflowStepID, arg.NumCores)
}

/// The steps that the arguments stand for, or the error of the first
/// argument that stands for none.
pub open spec fn resolved_steps(args: Seq<AssignedWorkflowStepArgs>) -> Result<
    Seq<WFSVariant>,
    CustomError,
>
    decreases args.len(),
{
    if args.len() == 0 {
        Ok(Seq::empty())
    } else {
        match resolved_steps(args.drop_last()) {
            Err(e) => Err(e),
            Ok(steps) => match resolved_step(args.last()) {
                Ok(step) => Ok(steps.push(step)),
                Err(e) => Err(e),
            },
        }
    }
}

/// What building a workflow from `args` yields: the inferred graph of the
/// steps that they stand for, if the list is not empty, every argument
/// stands for a step, and the graph is valid; else the first failure in
/// that order. An unknown kind id counts as a fault of the workflow.
pub open spec fn build_outcome(args: Seq<AssignedWorkflowStepArgs>) -> Result<
    Seq<NodeView>,
    CustomError,
> {
    if args.len() == 0 {
        Err(CustomError::InvalidWorkflow(WorkflowFault::EmptyWorkflow))
    } else {
        match resolved_steps(args) {
            Err(CustomError::UnknownKindId) => Err(
                CustomError::InvalidWorkflow(WorkflowFault::UnknownKindId),
            ),
            Err(e) => Err(e),
            Ok(steps) => match validation_fault(inferred_graph(steps)) {
                Some(fault) => Err(CustomError::InvalidWorkflow(fault)),
                None => Ok(inferred_graph(steps)),
            },
        }
    }
}

/// Turns the arguments into the steps that they stand for.
fn resolve_steps(args: &Vec<AssignedWorkflowStepArgs>) -> (r: Result<Vec<WFSVariant>, CustomError>)
    ensures
        match resolved_steps(args@) {
            Ok(steps) => r is Ok && r->Ok_0@ == steps,
            Err(e) => r == Err::<Vec<WFSVariant>, CustomError>(e),
        },
{
    let mut steps: Vec<WFSVariant> = Vec::new();
    let mut k: usize = 0;
    while k < args.len()
        invariant
            k <= args@.len(),
            resolved_steps(args@.subrange(0, k as int)) == Ok::<Seq<WFSVariant>, CustomError>(
                steps@,
            ),
        decreases args@.len() - k,
    {
        assert(args@.subrange(0, k + 1).drop_last() == args@.subrange(0, k as int));
        assert(args@.subrange(0, k + 1).last() == args@[k as int]);
        match get_workflow_step_by_id(args[k].WorkflowStepID, args[k].NumCores) {
            Ok(step) => {
                steps.push(step);
            },
            Err(e) => {
                proof {
                    lemma_resolved_steps_fail(args@, k + 1);
                }
                return Err(e);
            },
        }
        k = k + 1;
    }
    assert(args@.subrange(0, args@.len() as int) == args@);
    Ok(steps)
}

/// Once a prefix of the arguments fails, the whole list fails alike.
proof fn lemma_resolved_steps_fail(args: Seq<AssignedWorkflowStepArgs>, k: int)
    requires
        0 <= k <= args.len(),
        resolved_steps(args.subrange(0, k)) is Err,
    ensures
        resolved_steps(args) == resolved_steps(args.subrange(0, k)),
    decreases args.len() - k,
{
    if k < args.len() {
        assert(args.subrange(0, k + 1).drop_last() == args.subrange(0, k));
        lemma_resolved_steps_fail(args, k + 1);
    } else {
        assert(args.subrange(0, k) == args);
    }
}

/// Builds the graph of a list of steps: a node for each step, linked by
/// the adjacency rules of the catalog, and validated. Fails with the
/// fault that validation finds in the inferred graph.
pub fn link_steps(steps: &Vec<WFSVariant>) -> (r: Result<Vec<WorkflowNode>, WorkflowFault>)
    ensures
        match validation_fault(inferred_graph(steps@)) {
            Some(fault) => r is Err && r->Err_0 == fault,
            None => r is Ok && graph_of(r->Ok_0@) == inferred_graph(steps@),
        },
        r is Ok ==> valid_graph(graph_of(r->Ok_0@)),
{
    let mut bare: Vec<WorkflowNode> = Vec::new();
    let mut k: usize = 0;
    while k < steps.len()
        invariant
            k <= steps@.len(),
            bare@.len() == k,
            forall|i: int|
                0 <= i < k ==> (#[trigger] bare@[i]).data == steps@[i] && bare@[i].prev@.len() == 0
                    && bare@[i].next@.len() == 0,
        decreases steps@.len() - k,
    {
        bare.push(WorkflowNode { data: steps[k], prev: Vec::new(), next: Vec::new() });
        k = k + 1;
    }
    let nodes = append_edges(bare);
    proof {
        let before = graph_of(bare@);
        let after = graph_of(nodes@);
        assert(steps_of(before) =~= steps@);
        assert forall|i: int| 0 <= i < after.len() implies #[trigger] after[i] == inferred_graph(
            steps@,
        )[i] by {
            assert(before[i].prev =~= Seq::<usize>::empty());
            assert(before[i].next =~= Seq::<usize>::empty());
            assert(after[i].prev =~= predecessors_below(steps@, i, steps@.len()));
            assert(after[i].next =~= successors_below(steps@, i, steps@.len()));
        }
        assert(after =~= inferred_graph(steps@));
    }
    match ordered_workflow(&nodes) {
        Ok(_) => Ok(nodes),
        Err(fault) => Err(fault),
    }
}

/// Builds the graph of a new workflow from the client's list of steps.
pub fn build_graph(args: &Vec<AssignedWorkflowStepArgs>) -> (r: Result<
    Vec<WorkflowNode>,
    CustomError,
>)
    ensures
        match build_outcome(args@) {
            Ok(graph) => r is Ok && graph_of(r->Ok_0@) == graph,
            Err(e) => r == Err::<Vec<WorkflowNode>, CustomError>(e),
        },
        r is Ok ==> valid_graph(graph_of(r->Ok_0@)),
{
    if args.len() == 0 {
        return Err(CustomError::InvalidWorkflow(WorkflowFault::EmptyWorkflow));
    }
    let steps = match resolve_steps(args) {
        Ok(steps) => steps,
        Err(CustomError::UnknownKindId) => {
            return Err(CustomError::InvalidWorkflow(WorkflowFault::UnknownKindId));
        },
        Err(e) => {
            return Err(e);
        },
    };
    match link_steps(&steps) {
        Ok(nodes) => Ok(nodes),
        Err(fault) => Err(CustomError::InvalidWorkflow(fault)),
    }
}

/// Builds a new workflow from a title and the client's list of steps: the
/// steps become nodes, the adjacency rules of the catalog give the edges,
/// and the graph is validated.
pub fn build_workflow(title: String, steps: &Vec<AssignedWorkflowStepArgs>) -> (r: Result<
    Workflow,
    CustomError,
>)
    ensures
        is_built(title@, steps@, r),
        r is Ok ==> r->Ok_0.wf(),
{
    match build_graph(steps) {
        Ok(nodes) => Ok(Workflow { id: None, title, steps: nodes }),
        Err(e) => Err(e),
    }
}

/// `r` is what building from `title` and `args` yields: a workflow that
/// is not stored yet, with that title and the graph of `build_outcome`,
/// or the error of `build_outcome`.
pub open spec fn is_built(
    title: Seq<char>,
    args: Seq<AssignedWorkflowStepArgs>,
    r: Result<Workflow, CustomError>,
) -> bool {
    match build_outcome(args) {
        Ok(graph) => r is Ok && r->Ok_0@ == (WorkflowView { id: None, title, steps: graph }),
        Err(e) => r is Err && r->Err_0 == e,
    }
}

/// Building is a function of its inputs: two results for one title and
/// one list of steps fail alike, or are workflows with the same nodes in
/// the same order, each with the same step and the same `prev` and `next`
/// lists in the same order.
pub proof fn lemma_building_is_deterministic(
    title: Seq<char>,
    args: Seq<AssignedWorkflowStepArgs>,
    first: Result<Workflow, CustomError>,
    second: Result<Workflow, CustomError>,
)
    requires
        is_built(title, args, first),
        is_built(title, args, second),
    ensures
        first is Ok <==> second is Ok,
        first is Err ==> first->Err_0 == second->Err_0,
        first is Ok ==> first->Ok_0@ == second->Ok_0@,
        first is Ok ==> first->Ok_0@.steps.len() == second->Ok_0@.steps.len(),
        first is Ok ==> forall|i: int|
            0 <= i < first->Ok_0@.steps.len() ==> {
                &&& (#[trigger] first->Ok_0@.steps[i]).data == second->Ok_0@.steps[i].data
                &&& first->Ok_0@.steps[i].prev == second->Ok_0@.steps[i].prev
                &&& first->Ok_0@.steps[i].next == second->Ok_0@.steps[i].next
            },
{
}

} // verus!
