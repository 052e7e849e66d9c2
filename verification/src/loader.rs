//! Stored workflows: the rows that a workflow is stored as, and the
//! workflow that stored rows stand for.

use vstd::prelude::*;
use std::collections::HashMap;
use crate::database::{CustomError, DocID, WorkflowFault};
use crate::topology::edges_in_bounds;
use crate::validation::{ordered_workflow, valid_graph, validation_fault};
use crate::workflow::{graph_of, NodeView, Workflow, WorkflowNode, WorkflowView};
use crate::workflow_steps::{
    get_workflow_step_by_id, spec_step_by_id, AssignedWorkflowStep, WFSVariant,
};

verus! {

/// A stored step as a mathematical value.
pub struct RowView {
    pub id: DocID,
    pub kind: DocID,
    pub param_id: Option<DocID>,
    pub prev: Seq<usize>,
    pub next: Seq<usize>,
}

impl View for AssignedWorkflowStep {
    type V = RowView;

    open spec fn view(&self) -> RowView {
        RowView {
            id: self.id,
            kind: self.WorkflowStepID,
            param_id: self.param_id,
            prev: self.Prev@,
            next: self.Next@,
        }
    }
}

/// The rows as mathematical values, in their order.
pub open spec fn rows_of(rows: Seq<AssignedWorkflowStep>) -> Seq<RowView> {
    Seq::new(rows.len(), |i: int| rows[i]@)
}

/// Where each row id is found among the first `m` rows; of two rows with
/// one id the later one counts.
pub open spec fn row_index(rows: Seq<RowView>, m: nat) -> Map<DocID, usize>
    decreases m,
{
    if m == 0 || m > rows.len() {
        Map::empty()
    } else {
        row_index(rows, (m - 1) as nat).insert(rows[m - 1].id, (m - 1) as usize)
    }
}

/// Is every entry of `list` a row id that `index` knows?
pub open spec fn all_known(list: Seq<usize>, index: Map<DocID, usize>) -> bool {
    forall|k: int|
        0 <= k < list.len() ==> (#[trigger] list[k]) <= DocID::MAX && index.contains_key(
            list[k] as DocID,
        )
}

/// The positions that the row ids in `list` stand for.
pub open spec fn positions(list: Seq<usize>, index: Map<DocID, usize>) -> Seq<usize> {
    Seq::new(list.len(), |k: int| index[list[k] as DocID])
}

/// Can the row at `i` be read: does its kind with its parameter stand
/// for a step, and does it refer to known rows only?
pub open spec fn row_readable(rows: Seq<RowView>, params: Seq<Option<u32>>, i: int) -> bool {
    &&& spec_step_by_id(rows[i].kind, params[i]) is Ok
    &&& all_known(rows[i].prev, row_index(rows, rows.len()))
    &&& all_known(rows[i].next, row_index(rows, rows.len()))
}

/// The graph that stored rows stand for: a node for each row, in the
/// order of the rows, with the step that the row's kind and parameter
/// stand for, and with the row ids in its lists turned into positions.
/// `None` if there is not one parameter entry for each row, or some row
/// cannot be read.
pub open spec fn loaded_graph(rows: Seq<RowView>, params: Seq<Option<u32>>) -> Option<
    Seq<NodeView>,
> {
    if rows.len() == params.len() && rows.len() <= usize::MAX && (forall|i: int|
        0 <= i < rows.len() ==> #[trigger] row_readable(rows, params, i)) {
        Some(
            Seq::new(
                rows.len(),
                |i: int|
                    NodeView {
                        data: spec_step_by_id(rows[i].kind, params[i])->Ok_0,
                        prev: positions(rows[i].prev, row_index(rows, rows.len())),
                        next: positions(rows[i].next, row_index(rows, rows.len())),
                    },
            ),
        )
    } else {
        None
    }
}

/// What loading stored rows yields: the graph that they stand for, if
/// they stand for one and it is valid; a catalog mismatch if they stand
/// for none; else the fault that validation finds.
pub open spec fn load_outcome(rows: Seq<RowView>, params: Seq<Option<u32>>) -> Result<
    Seq<NodeView>,
    CustomError,
> {
    match loaded_graph(rows, params) {
        None => Err(CustomError::InvalidWorkflow(WorkflowFault::CatalogMismatch)),
        Some(graph) => match validation_fault(graph) {
            Some(fault) => Err(CustomError::InvalidWorkflow(fault)),
            None => Ok(graph),
        },
    }
}

/// Turns a list of row ids into positions; `None` if it holds an id that
/// no row has.
fn find_positions(list: &Vec<usize>, id_to_index: &HashMap<DocID, usize>) -> (r: Option<
    Vec<usize>,
>)
    ensures
        r is Some <==> all_known(list@, id_to_index@),
        r is Some ==> r->0@ == positions(list@, id_to_index@),
{
    let mut found: Vec<usize> = Vec::new();
    let mut k: usize = 0;
    while k < list.len()
        invariant
            k <= list@.len(),
            found@.len() == k,
            forall|m: int|
                0 <= m < k ==> (#[trigger] list@[m]) <= DocID::MAX && id_to_index@.contains_key(
                    list@[m] as DocID,
                ),
            forall|m: int| 0 <= m < k ==> found@[m] == id_to_index@[list@[m] as DocID],
        decreases list@.len() - k,
    {
        let row_id = list[k];
        if row_id > DocID::MAX as usize {
            return None;
        }
        match id_to_index.get(&(row_id as DocID)) {
            Some(at) => {
                found.push(*at);
            },
            None => {
                return None;
            },
        }
        k = k + 1;
    }
    assert(found@ =~= positions(list@, id_to_index@));
    Some(found)
}

/// Reconstructs a stored workflow from its rows: `rows` are its steps in
/// their stored order, and `params[i]` is the stored parameter of step
/// `i`, the number of cores of a rasterization step, where the store
/// holds one. The graph is validated before it is handed out.
pub fn find_workflow(
    id: DocID,
    title: String,
    rows: &Vec<AssignedWorkflowStep>,
    params: &Vec<Option<u32>>,
) -> (r: Result<Workflow, CustomError>)
    ensures
        match load_outcome(rows_of(rows@), params@) {
            Ok(graph) => r is Ok && r->Ok_0@ == (WorkflowView {
                id: Some(id),
                title: title@,
                steps: graph,
            }),
            Err(e) => r is Err && r->Err_0 == e,
        },
        r is Ok ==> r->Ok_0.wf(),
{
    let ghost views = rows_of(rows@);
    let n = rows.len();
    if params.len() != n {
        return Err(CustomError::InvalidWorkflow(WorkflowFault::CatalogMismatch));
    }
    let mut id_to_index: HashMap<DocID, usize> = HashMap::new();
    let mut i: usize = 0;
    while i < n
        invariant
            i <= n,
            n == rows@.len(),
            views == rows_of(rows@),
            id_to_index@ == row_index(views, i as nat),
        decreases n - i,
    {
        id_to_index.insert(rows[i].id, i);
        i = i + 1;
    }
    let mut nodes: Vec<WorkflowNode> = Vec::new();
    let mut i: usize = 0;
    while i < n
        invariant
            i <= n,
            n == rows@.len(),
            n == params@.len(),
            views == rows_of(rows@),
            id_to_index@ == row_index(views, n as nat),
            nodes@.len() == i,
            forall|a: int| 0 <= a < i ==> #[trigger] row_readable(views, params@, a),
            forall|a: int|
                0 <= a < i ==> (#[trigger] nodes@[a])@ == (NodeView {
                    data: spec_step_by_id(views[a].kind, params@[a])->Ok_0,
                    prev: positions(views[a].prev, row_index(views, n as nat)),
                    next: positions(views[a].next, row_index(views, n as nat)),
                }),
        decreases n - i,
    {
        let row = &rows[i];
        assert(views[i as int] == row@);
        let data = match get_workflow_step_by_id(row.WorkflowStepID, params[i]) {
            Ok(step) => step,
            Err(_) => {
                assert(!row_readable(views, params@, i as int));
                return Err(CustomError::InvalidWorkflow(WorkflowFault::CatalogMismatch));
            },
        };
        let prev = match find_positions(&row.Prev, &id_to_index) {
            Some(prev) => prev,
            None => {
                assert(!row_readable(views, params@, i as int));
                return Err(CustomError::InvalidWorkflow(WorkflowFault::CatalogMismatch));
            },
        };
        let next = match find_positions(&row.Next, &id_to_index) {
            Some(next) => next,
            None => {
                assert(!row_readable(views, params@, i as int));
                return Err(CustomError::InvalidWorkflow(WorkflowFault::CatalogMismatch));
            },
        };
        nodes.push(WorkflowNode { data, prev, next });
        assert(row_readable(views, params@, i as int));
        i = i + 1;
    }
    proof {
        assert(graph_of(nodes@) =~= loaded_graph(views, params@)->0);
    }
    match ordered_workflow(&nodes) {
        Ok(_) => Ok(Workflow { id: Some(id), title, steps: nodes }),
        Err(fault) => Err(CustomError::InvalidWorkflow(fault)),
    }
}

/// The row ids of the nodes at the positions in `list`.
pub open spec fn row_ids(list: Seq<usize>, ids: Seq<DocID>) -> Seq<usize> {
    Seq::new(list.len(), |k: int| ids[list[k] as int] as usize)
}

/// The rows that a graph is stored as once the store has given node `i`
/// the row id `ids[i]`: each row names its kind and, by their row ids,
/// the nodes before and after it. The row id of its parameter is for
/// the store to fill in.
pub open spec fn stored_rows(graph: Seq<NodeView>, ids: Seq<DocID>) -> Seq<RowView> {
    Seq::new(
        graph.len(),
        |i: int|
            RowView {
                id: ids[i],
                kind: graph[i].data.spec_id(),
                param_id: None,
                prev: row_ids(graph[i].prev, ids),
                next: row_ids(graph[i].next, ids),
            },
    )
}

/// The parameter that is stored with a step: the number of cores of a
/// rasterization step.
pub open spec fn stored_param(step: WFSVariant) -> Option<u32> {
    match step {
        WFSVariant::Rasterization { num_cores } => Some(num_cores),
        _ => None,
    }
}

/// The parameters that are stored with the steps of a graph.
pub open spec fn stored_params(graph: Seq<NodeView>) -> Seq<Option<u32>> {
    Seq::new(graph.len(), |i: int| stored_param(graph[i].data))
}

/// What a workflow is stored as.
pub struct WorkflowRows {
    /// One row for each step, in the order of the steps.
    pub rows: Vec<AssignedWorkflowStep>,
    /// The parameter to store with each step, where its kind has one.
    pub params: Vec<Option<u32>>,
}

/// Turns a list of positions into row ids; `None` if a position is
/// beyond the list of ids.
fn find_row_ids(list: &Vec<usize>, ids: &Vec<DocID>) -> (r: Option<Vec<usize>>)
    ensures
        r is Some <==> (forall|k: int| 0 <= k < list@.len() ==> (#[trigger] list@[k]) < ids@.len()),
        r is Some ==> r->0@ == row_ids(list@, ids@),
{
    let mut found: Vec<usize> = Vec::new();
    let mut k: usize = 0;
    while k < list.len()
        invariant
            k <= list@.len(),
            found@.len() == k,
            forall|m: int| 0 <= m < k ==> (#[trigger] list@[m]) < ids@.len(),
            forall|m: int| 0 <= m < k ==> found@[m] == ids@[list@[m] as int] as usize,
        decreases list@.len() - k,
    {
        let at = list[k];
        if at >= ids.len() {
            return None;
        }
        found.push(ids[at] as usize);
        k = k + 1;
    }
    assert(found@ =~= row_ids(list@, ids@));
    Some(found)
}

/// The rows and parameters to store a workflow as, once the store has
/// given node `i` the row id `ids[i]`. `None` if there is not one id for
/// each node, or a list of the workflow leaves the graph.
pub fn workflow_rows(workflow: &Workflow, ids: &Vec<DocID>) -> (r: Option<WorkflowRows>)
    ensures
        r is Some <==> ids@.len() == workflow@.steps.len() && edges_in_bounds(workflow@.steps),
        r is Some ==> rows_of(r->0.rows@) == stored_rows(workflow@.steps, ids@) && r->0.params@
            == stored_params(workflow@.steps),
{
    let ghost graph = workflow@.steps;
    let n = workflow.steps.len();
    if ids.len() != n {
        return None;
    }
    let mut rows: Vec<AssignedWorkflowStep> = Vec::new();
    let mut params: Vec<Option<u32>> = Vec::new();
    let mut i: usize = 0;
    while i < n
        invariant
            i <= n,
            n == workflow.steps@.len(),
            n == ids@.len(),
            graph == graph_of(workflow.steps@),
            rows@.len() == i,
            params@.len() == i,
            forall|a: int, k: int|
                0 <= a < i && 0 <= k < graph[a].prev.len() ==> (#[trigger] graph[a].prev[k]) < n,
            forall|a: int, k: int|
                0 <= a < i && 0 <= k < graph[a].next.len() ==> (#[trigger] graph[a].next[k]) < n,
            forall|a: int| 0 <= a < i ==> (#[trigger] rows@[a])@ == stored_rows(graph, ids@)[a],
            forall|a: int| 0 <= a < i ==> #[trigger] params@[a] == stored_param(graph[a].data),
        decreases n - i,
    {
        let node = &workflow.steps[i];
        assert(graph[i as int] == node@);
        assert(graph[i as int].prev == node.prev@);
        assert(graph[i as int].next == node.next@);
        let prev = match find_row_ids(&node.prev, ids) {
            Some(prev) => prev,
            None => {
                return None;
            },
        };
        let next = match find_row_ids(&node.next, ids) {
            Some(next) => next,
            None => {
                return None;
            },
        };
        rows.push(
            AssignedWorkflowStep {
                id: ids[i],
                WorkflowStepID: node.data.id(),
                param_id: None,
                Prev: prev,
                Next: next,
            },
        );
        params.push(
            match node.data {
                WFSVariant::Rasterization { num_cores } => Some(num_cores),
                _ => None,
            },
        );
        i = i + 1;
    }
    proof {
        assert(rows_of(rows@) =~= stored_rows(graph, ids@));
        assert(params@ =~= stored_params(graph));
    }
    Some(WorkflowRows { rows, params })
}

/// A step is what the id of its kind and its stored parameter stand for.
pub proof fn lemma_step_by_id_round_trip(step: WFSVariant)
    ensures
        spec_step_by_id(step.spec_id(), stored_param(step)) == Ok::<WFSVariant, CustomError>(step),
{
}

/// With distinct row ids each id is found at its own position.
proof fn lemma_row_index(rows: Seq<RowView>, m: nat)
    requires
        m <= rows.len() <= usize::MAX,
        forall|i: int, j: int| 0 <= i < j < rows.len() ==> rows[i].id != rows[j].id,
    ensures
        forall|i: int|
            0 <= i < m ==> row_index(rows, m).contains_key(#[trigger] rows[i].id) && row_index(
                rows,
                m,
            )[rows[i].id] == i,
    decreases m,
{
    if m > 0 {
        lemma_row_index(rows, (m - 1) as nat);
    }
}

/// What is stored can be loaded: the rows and parameters that a valid
/// workflow is stored as, under row ids that differ from node to node,
/// stand for that very workflow.
pub proof fn lemma_stored_workflow_loads(graph: Seq<NodeView>, ids: Seq<DocID>)
    requires
        valid_graph(graph),
        graph.len() <= usize::MAX,
        ids.len() == graph.len(),
        forall|i: int, j: int| 0 <= i < j < ids.len() ==> ids[i] != ids[j],
    ensures
        load_outcome(stored_rows(graph, ids), stored_params(graph)) == Ok::<
            Seq<NodeView>,
            CustomError,
        >(graph),
{
    let rows = stored_rows(graph, ids);
    let params = stored_params(graph);
    let index = row_index(rows, rows.len());
    lemma_row_index(rows, rows.len());
    assert forall|i: int| 0 <= i < rows.len() implies #[trigger] row_readable(rows, params, i)
        && positions(rows[i].prev, index) == graph[i].prev && positions(rows[i].next, index)
        == graph[i].next && spec_step_by_id(rows[i].kind, params[i])->Ok_0 == graph[i].data by {
        lemma_step_by_id_round_trip(graph[i].data);
        let before = rows[i].prev;
        assert forall|k: int| 0 <= k < before.len() implies (#[trigger] before[k]) <= DocID::MAX
            && index.contains_key(before[k] as DocID) && index[before[k] as DocID]
            == graph[i].prev[k] by {
            let at = graph[i].prev[k] as int;
            assert(rows[at].id == ids[at]);
        }
        let after = rows[i].next;
        assert forall|k: int| 0 <= k < after.len() implies (#[trigger] after[k]) <= DocID::MAX
            && index.contains_key(after[k] as DocID) && index[after[k] as DocID]
            == graph[i].next[k] by {
            let at = graph[i].next[k] as int;
            assert(rows[at].id == ids[at]);
        }
        assert(positions(rows[i].prev, index) =~= graph[i].prev);
        assert(positions(rows[i].next, index) =~= graph[i].next);
    }
    let loaded = loaded_graph(rows, params)->0;
    assert forall|i: int| 0 <= i < graph.len() implies #[trigger] loaded[i] == graph[i] by {
        assert(row_readable(rows, params, i));
    }
    assert(loaded =~= graph);
}

} // verus!
