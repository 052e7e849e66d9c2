//! The simulator: what each node costs for a print job, when each node
//! finishes if every node starts as soon as all before it are done, and
//! how long the whole workflow takes.

use vstd::prelude::*;
use std::collections::HashMap;
use crate::database::{CustomError, DocID, PrintJob, SimulationReport};
use crate::reach::{is_sink, is_walk, linked, reached};
use crate::topology::{
    acyclic, edges_consistent, edges_in_bounds, has_back_link, has_edge, is_topological_order,
    is_topological_rank, listed_before,
};
use crate::validation::{ordered_workflow, valid_graph, validation_fault};
use crate::workflow::{graph_of, NodeView, Workflow, WorkflowNode};
use crate::workflow_steps::{WFSVariant, KIND_COUNT};

verus! {

/// `pages` split over `cores`, rounded up; no core counts as one.
pub open spec fn pages_per_core(pages: u32, cores: u32) -> int {
    if cores <= 1 {
        pages as int
    } else {
        (pages + cores - 1) / (cores as int)
    }
}

/// The time one node takes for a job of `pages` pages: its setup time
/// plus its time per page for every page, where a rasterization step
/// shares the pages among its cores.
pub open spec fn step_cost(step: WFSVariant, pages: u32) -> int {
    match step {
        WFSVariant::Rasterization { num_cores } => pages_per_core(pages, num_cores)
            * step.spec_time_per_page() + step.spec_setup_time(),
        _ => pages * step.spec_time_per_page() + step.spec_setup_time(),
    }
}

/// The larger of two times.
pub open spec fn later(a: int, b: int) -> int {
    if a >= b {
        a
    } else {
        b
    }
}

/// When node `v` finishes, following its `prev` lists at most `fuel`
/// nodes deep: its own cost after the latest of the nodes before it.
pub open spec fn finish_time(graph: Seq<NodeView>, pages: u32, v: int, fuel: nat) -> int
    decreases fuel, 0nat,
{
    if fuel == 0 || !(0 <= v < graph.len()) {
        0
    } else {
        step_cost(graph[v].data, pages) + latest_finish(
            graph,
            pages,
            graph[v].prev,
            graph[v].prev.len(),
            (fuel - 1) as nat,
        )
    }
}

/// The latest `finish_time` among the first `k` nodes of `list`; 0 where
/// there is none.
pub open spec fn latest_finish(
    graph: Seq<NodeView>,
    pages: u32,
    list: Seq<usize>,
    k: nat,
    fuel: nat,
) -> int
    decreases fuel, k,
{
    if k == 0 {
        0
    } else {
        later(
            latest_finish(graph, pages, list, (k - 1) as nat, fuel),
            finish_time(graph, pages, list[k - 1] as int, fuel),
        )
    }
}

/// When node `v` finishes if every node starts as soon as all nodes
/// before it are done: `step_cost(v)` after the latest of its
/// predecessors. In a graph of `n` nodes without a cycle no chain of
/// predecessors is longer than `n`.
pub open spec fn critical_time(graph: Seq<NodeView>, pages: u32, v: int) -> int {
    finish_time(graph, pages, v, graph.len())
}

/// The latest `critical_time` among the first `k` nodes of `list`; 0
/// where there is none.
pub open spec fn latest_critical(graph: Seq<NodeView>, pages: u32, list: Seq<usize>, k: nat) -> int
    decreases k,
{
    if k == 0 {
        0
    } else {
        later(
            latest_critical(graph, pages, list, (k - 1) as nat),
            critical_time(graph, pages, list[k - 1] as int),
        )
    }
}

/// The latest `critical_time` among the first `m` nodes of the graph.
pub open spec fn latest_below(graph: Seq<NodeView>, pages: u32, m: nat) -> int
    decreases m,
{
    if m == 0 {
        0
    } else {
        later(latest_below(graph, pages, (m - 1) as nat), critical_time(graph, pages, m - 1))
    }
}

/// The length of the critical path: when the last node finishes.
pub open spec fn total_time(graph: Seq<NodeView>, pages: u32) -> int {
    latest_below(graph, pages, graph.len())
}

/// Is one of the first `m` nodes of the kind with id `kind`?
pub open spec fn kind_present(graph: Seq<NodeView>, kind: DocID, m: nat) -> bool {
    exists|i: int| 0 <= i < m && i < graph.len() && (#[trigger] graph[i]).data.spec_id() == kind
}

/// The cost of all nodes of the kind with id `kind` among the first `m`
/// nodes, each node counted once.
pub open spec fn kind_total(graph: Seq<NodeView>, pages: u32, kind: DocID, m: nat) -> int
    decreases m,
{
    if m == 0 || m > graph.len() {
        0
    } else {
        kind_total(graph, pages, kind, (m - 1) as nat) + if graph[m - 1].data.spec_id() == kind {
            step_cost(graph[m - 1].data, pages)
        } else {
            0
        }
    }
}

/// Some simulated time is too large for a report's 32-bit fields: the
/// finish time of a node, or the total of a kind.
pub open spec fn time_overflows(graph: Seq<NodeView>, pages: u32) -> bool {
    ||| exists|v: int| 0 <= v < graph.len() && #[trigger] critical_time(graph, pages, v) > u32::MAX
    ||| exists|kind: DocID| #[trigger] kind_total(graph, pages, kind, graph.len()) > u32::MAX
}

/// For each kind that occurs in the graph, the cost of all its nodes.
pub open spec fn step_times(graph: Seq<NodeView>, pages: u32) -> Map<DocID, u32> {
    Map::new(
        |kind: DocID| kind_present(graph, kind, graph.len()),
        |kind: DocID| kind_total(graph, pages, kind, graph.len()) as u32,
    )
}

/// No step costs a negative time, and none more than 2^37.
pub proof fn lemma_step_cost_bounds(step: WFSVariant, pages: u32)
    ensures
        0 <= step_cost(step, pages) <= 0x20_0000_0000,
        pages <= 0x10_0000 ==> step_cost(step, pages) <= u32::MAX,
{
    match step {
        WFSVariant::Rasterization { num_cores } => {
            let q = pages_per_core(pages, num_cores);
            if num_cores > 1 {
                assert(0 <= q <= pages) by (nonlinear_arith)
                    requires
                        q == (pages + num_cores - 1) / (num_cores as int),
                        num_cores > 1,
                        pages >= 0,
                ;
            }
            assert(step.spec_time_per_page() == 15 && step.spec_setup_time() == 50);
            assert(step_cost(step, pages) == q * 15 + 50);
        },
        _ => {},
    }
}

/// Beyond the rank of a node more fuel changes nothing: every chain of
/// predecessors has ended by then.
proof fn lemma_finish_stable(
    graph: Seq<NodeView>,
    pages: u32,
    rank: Seq<int>,
    v: int,
    fuel: nat,
)
    requires
        edges_in_bounds(graph),
        edges_consistent(graph),
        is_topological_rank(graph, rank),
        0 <= v < graph.len(),
        fuel > rank[v],
    ensures
        finish_time(graph, pages, v, fuel) == finish_time(graph, pages, v, (rank[v] + 1) as nat),
    decreases fuel, 0nat,
{
    if fuel > rank[v] + 1 {
        let list = graph[v].prev;
        assert forall|i: int| 0 <= i < list.len() implies 0 <= #[trigger] list[i] < graph.len()
            && rank[list[i] as int] < rank[v] by {
            assert(has_back_link(graph, v, list[i] as int));
            assert(has_edge(graph, list[i] as int, v));
        }
        lemma_latest_stable(
            graph,
            pages,
            rank,
            list,
            list.len(),
            (fuel - 1) as nat,
            rank[v] as nat,
        );
    }
}

proof fn lemma_latest_stable(
    graph: Seq<NodeView>,
    pages: u32,
    rank: Seq<int>,
    list: Seq<usize>,
    k: nat,
    fuel: nat,
    floor: nat,
)
    requires
        edges_in_bounds(graph),
        edges_consistent(graph),
        is_topological_rank(graph, rank),
        k <= list.len(),
        floor <= fuel,
        forall|i: int|
            0 <= i < k ==> 0 <= #[trigger] list[i] < graph.len() && rank[list[i] as int] < floor,
    ensures
        latest_finish(graph, pages, list, k, fuel) == latest_finish(graph, pages, list, k, floor),
    decreases fuel, k,
{
    if k > 0 {
        lemma_latest_stable(graph, pages, rank, list, (k - 1) as nat, fuel, floor);
        let u = list[k - 1] as int;
        lemma_finish_stable(graph, pages, rank, u, fuel);
        if floor < fuel {
            lemma_finish_stable(graph, pages, rank, u, floor);
        }
    }
}

/// With all the fuel there is, `latest_finish` is `latest_critical`.
proof fn lemma_latest_is_critical(
    graph: Seq<NodeView>,
    pages: u32,
    rank: Seq<int>,
    list: Seq<usize>,
    k: nat,
    fuel: nat,
)
    requires
        edges_in_bounds(graph),
        edges_consistent(graph),
        is_topological_rank(graph, rank),
        k <= list.len(),
        fuel <= graph.len(),
        forall|i: int|
            0 <= i < k ==> 0 <= #[trigger] list[i] < graph.len() && rank[list[i] as int] < fuel,
    ensures
        latest_finish(graph, pages, list, k, fuel) == latest_critical(graph, pages, list, k),
    decreases k,
{
    if k > 0 {
        lemma_latest_is_critical(graph, pages, rank, list, (k - 1) as nat, fuel);
        let u = list[k - 1] as int;
        lemma_finish_stable(graph, pages, rank, u, fuel);
        lemma_finish_stable(graph, pages, rank, u, graph.len());
    }
}

/// In a graph without a cycle whose lists agree, a node finishes its own
/// cost after the latest of the nodes in its `prev` list.
pub proof fn lemma_critical_time_unfolds(graph: Seq<NodeView>, pages: u32, v: int)
    requires
        edges_in_bounds(graph),
        edges_consistent(graph),
        acyclic(graph),
        0 <= v < graph.len(),
    ensures
        critical_time(graph, pages, v) == step_cost(graph[v].data, pages) + latest_critical(
            graph,
            pages,
            graph[v].prev,
            graph[v].prev.len(),
        ),
{
    let rank = choose|rank: Seq<int>| is_topological_rank(graph, rank);
    let list = graph[v].prev;
    assert forall|i: int| 0 <= i < list.len() implies 0 <= #[trigger] list[i] < graph.len()
        && rank[list[i] as int] < graph.len() - 1 by {
        assert(has_back_link(graph, v, list[i] as int));
        assert(has_edge(graph, list[i] as int, v));
    }
    lemma_latest_is_critical(graph, pages, rank, list, list.len(), (graph.len() - 1) as nat);
}

/// `latest_critical` is no earlier than any of its nodes, and is the
/// time of one of them unless it is 0.
pub proof fn lemma_latest_critical(graph: Seq<NodeView>, pages: u32, list: Seq<usize>, k: nat)
    requires
        k <= list.len(),
    ensures
        0 <= latest_critical(graph, pages, list, k),
        forall|i: int|
            0 <= i < k ==> critical_time(graph, pages, #[trigger] list[i] as int)
                <= latest_critical(graph, pages, list, k),
        latest_critical(graph, pages, list, k) == 0 || exists|i: int|
            0 <= i < k && critical_time(graph, pages, #[trigger] list[i] as int)
                == latest_critical(graph, pages, list, k),
    decreases k,
{
    if k > 0 {
        lemma_latest_critical(graph, pages, list, (k - 1) as nat);
        let before = latest_critical(graph, pages, list, (k - 1) as nat);
        let all = latest_critical(graph, pages, list, k);
        if all != 0 {
            if all == before {
                let i = choose|i: int|
                    0 <= i < k - 1 && critical_time(graph, pages, #[trigger] list[i] as int)
                        == before;
                assert(critical_time(graph, pages, list[i] as int) == all);
            } else {
                assert(critical_time(graph, pages, list[k - 1] as int) == all);
            }
        }
    }
}

/// `total_time` is the one time that no node exceeds and that is the
/// time of some node, or 0.
pub proof fn lemma_total_time(graph: Seq<NodeView>, pages: u32, m: nat, total: int)
    requires
        m <= graph.len(),
        0 <= total,
        forall|v: int| 0 <= v < m ==> #[trigger] critical_time(graph, pages, v) <= total,
        total == 0 || exists|v: int|
            0 <= v < m && #[trigger] critical_time(graph, pages, v) == total,
    ensures
        latest_below(graph, pages, m) == total,
{
    lemma_latest_below(graph, pages, m);
}

/// `latest_below` is no earlier than any of the nodes, and is the time
/// of one of them unless it is 0.
pub proof fn lemma_latest_below(graph: Seq<NodeView>, pages: u32, m: nat)
    ensures
        0 <= latest_below(graph, pages, m),
        forall|v: int|
            0 <= v < m ==> #[trigger] critical_time(graph, pages, v) <= latest_below(
                graph,
                pages,
                m,
            ),
        latest_below(graph, pages, m) == 0 || exists|v: int|
            0 <= v < m && #[trigger] critical_time(graph, pages, v) == latest_below(
                graph,
                pages,
                m,
            ),
    decreases m,
{
    if m > 0 {
        lemma_latest_below(graph, pages, (m - 1) as nat);
        let before = latest_below(graph, pages, (m - 1) as nat);
        let all = latest_below(graph, pages, m);
        if all != 0 {
            if all == before {
                let v = choose|v: int|
                    0 <= v < m - 1 && #[trigger] critical_time(graph, pages, v) == before;
                assert(critical_time(graph, pages, v) == all);
            } else {
                assert(critical_time(graph, pages, m - 1) == all);
            }
        }
    }
}

/// The total of a kind never shrinks as more nodes are counted.
pub proof fn lemma_kind_total_grows(graph: Seq<NodeView>, pages: u32, kind: DocID, a: nat, b: nat)
    requires
        a <= b <= graph.len(),
    ensures
        0 <= kind_total(graph, pages, kind, a) <= kind_total(graph, pages, kind, b),
    decreases b,
{
    if b == 0 {
    } else if a == b {
        lemma_kind_total_grows(graph, pages, kind, (a - 1) as nat, (b - 1) as nat);
        lemma_step_cost_bounds(graph[b - 1].data, pages);
    } else {
        lemma_kind_total_grows(graph, pages, kind, a, (b - 1) as nat);
        lemma_step_cost_bounds(graph[b - 1].data, pages);
    }
}

/// The state of one simulation: which nodes are done, when each of them
/// finishes, what each kind has cost so far, and the latest finish time.
pub struct Search {
    pub visited: Vec<bool>,
    pub step_times_cumulative: Vec<u32>,
    pub step_times_by_id: HashMap<DocID, u32>,
    pub cumulative_time: u32,
}

impl Search {
    /// The state is well formed for a workflow of `n` nodes: it has a
    /// mark and a finish time for each node.
    pub open spec fn wf(&self, n: nat) -> bool {
        self.visited@.len() == n && self.step_times_cumulative@.len() == n
    }

    /// The state before any node is done.
    pub fn new(workflow: &Workflow) -> (search: Search)
        ensures
            search.wf(workflow.steps@.len()),
            search.visited@ == Seq::new(workflow.steps@.len(), |i: int| false),
            search.step_times_cumulative@ == Seq::new(workflow.steps@.len(), |i: int| 0u32),
            search.step_times_by_id@ == Map::<DocID, u32>::empty(),
            search.cumulative_time == 0,
    {
        let length = workflow.steps.len();
        let mut visited: Vec<bool> = Vec::new();
        let mut step_times_cumulative: Vec<u32> = Vec::new();
        let mut i: usize = 0;
        while i < length
            invariant
                i <= length,
                visited@ == Seq::new(i as nat, |i: int| false),
                step_times_cumulative@ == Seq::new(i as nat, |i: int| 0u32),
            decreases length - i,
        {
            visited.push(false);
            step_times_cumulative.push(0);
            i = i + 1;
            assert(visited@ =~= Seq::new(i as nat, |i: int| false));
            assert(step_times_cumulative@ =~= Seq::new(i as nat, |i: int| 0u32));
        }
        Search {
            visited,
            step_times_cumulative,
            step_times_by_id: HashMap::new(),
            cumulative_time: 0,
        }
    }

    /// Claims the node at `index`: returns false if it was claimed
    /// before, else marks it and returns true.
    pub fn visit(&mut self, index: usize) -> (fresh: bool)
        requires
            index < old(self).visited@.len(),
        ensures
            forall|n: nat| old(self).wf(n) ==> #[trigger] final(self).wf(n),
            fresh == !old(self).visited@[index as int],
            !fresh ==> *final(self) == *old(self),
            final(self).visited@ == old(self).visited@.update(index as int, true),
            final(self).step_times_cumulative == old(self).step_times_cumulative,
            final(self).step_times_by_id == old(self).step_times_by_id,
            final(self).cumulative_time == old(self).cumulative_time,
    {
        if self.visited[index] {
            assert(self.visited@ =~= self.visited@.update(index as int, true));
            return false;
        }
        self.visited.set(index, true);
        true
    }

    /// Records when the node `step` finishes and keeps the latest finish
    /// time of all.
    pub fn update_step_time_cumulative(&mut self, step: usize, time: u32)
        requires
            step < old(self).step_times_cumulative@.len(),
        ensures
            forall|n: nat| old(self).wf(n) ==> #[trigger] final(self).wf(n),
            final(self).step_times_cumulative@ == old(self).step_times_cumulative@.update(
                step as int,
                time,
            ),
            final(self).cumulative_time == later(old(self).cumulative_time as int, time as int),
            final(self).visited == old(self).visited,
            final(self).step_times_by_id == old(self).step_times_by_id,
    {
        self.step_times_cumulative.set(step, time);
        if time > self.cumulative_time {
            self.cumulative_time = time;
        }
    }

    /// When the node `step` finishes, 0 while that is not recorded.
    pub fn get_step_time_cumulative(&self, step: usize) -> (time: u32)
        requires
            step < self.step_times_cumulative@.len(),
        ensures
            time == self.step_times_cumulative@[step as int],
    {
        self.step_times_cumulative[step]
    }

    /// Adds `time` to what the kind with the given id has cost so far.
    pub fn update_step_time_by_id(&mut self, id: &DocID, time: u32)
        requires
            old(self).step_times_by_id@.contains_key(*id) ==> old(self).step_times_by_id@[*id]
                + time <= u32::MAX,
        ensures
            forall|n: nat| old(self).wf(n) ==> #[trigger] final(self).wf(n),
            final(self).step_times_by_id@ == old(self).step_times_by_id@.insert(
                *id,
                if old(self).step_times_by_id@.contains_key(*id) {
                    (old(self).step_times_by_id@[*id] + time) as u32
                } else {
                    time
                },
            ),
            final(self).visited == old(self).visited,
            final(self).step_times_cumulative == old(self).step_times_cumulative,
            final(self).cumulative_time == old(self).cumulative_time,
    {
        let sum = match self.step_times_by_id.get(id) {
            Some(val) => *val + time,
            None => time,
        };
        self.step_times_by_id.insert(*id, sum);
    }

    /// What each kind has cost so far.
    pub fn get_step_times_by_id(&self) -> (times: HashMap<DocID, u32>)
        ensures
            times@ == self.step_times_by_id@,
    {
        self.step_times_by_id.clone()
    }

    /// The latest finish time recorded so far.
    pub fn get_cumulative_time(&self) -> (time: u32)
        ensures
            time == self.cumulative_time,
    {
        self.cumulative_time
    }
}

/// The time that one node takes for the print job.
pub fn simulate_step(print_job: &PrintJob, wfs: &WorkflowNode) -> (cost: u64)
    ensures
        cost == step_cost(wfs.data, print_job.PageCount),
{
    let pages = print_job.PageCount as u64;
    let per_page = wfs.data.time_per_page() as u64;
    let setup = wfs.data.setup_time() as u64;
    match wfs.data {
        WFSVariant::Rasterization { num_cores } => {
            let share = if num_cores <= 1 {
                pages
            } else {
                (pages + num_cores as u64 - 1) / (num_cores as u64)
            };
            assert(share <= pages) by (nonlinear_arith)
                requires
                    num_cores <= 1 ==> share == pages,
                    num_cores > 1 ==> share == (pages + num_cores - 1) / (num_cores as int),
                    pages >= 0,
            ;
            assert(per_page == 15 && setup == 50);
            share * per_page + setup
        },
        _ => {
            assert(per_page <= 20 && setup <= 100);
            pages * per_page + setup
        },
    }
}

/// A kind that does not occur has cost nothing.
proof fn lemma_absent_kind_total(graph: Seq<NodeView>, pages: u32, kind: DocID, m: nat)
    requires
        m <= graph.len(),
        !kind_present(graph, kind, m),
    ensures
        kind_total(graph, pages, kind, m) == 0,
    decreases m,
{
    if m > 0 {
        assert(graph[m - 1].data.spec_id() != kind);
        assert(!kind_present(graph, kind, (m - 1) as nat)) by {
            if kind_present(graph, kind, (m - 1) as nat) {
                let i = choose|i: int|
                    0 <= i < m - 1 && i < graph.len() && (#[trigger] graph[i]).data.spec_id()
                        == kind;
                assert(graph[i].data.spec_id() == kind);
            }
        }
        lemma_absent_kind_total(graph, pages, kind, (m - 1) as nat);
    }
}

/// Adds up, kind by kind, what every node costs for the print job, each
/// node once. Returns false if the total of a kind does not fit 32 bits.
fn aggregate_step_times(
    print_job: &PrintJob,
    steps: &Vec<WorkflowNode>,
    search: &mut Search,
) -> (ok: bool)
    requires
        old(search).step_times_by_id@ == Map::<DocID, u32>::empty(),
    ensures
        final(search).visited == old(search).visited,
        final(search).step_times_cumulative == old(search).step_times_cumulative,
        final(search).cumulative_time == old(search).cumulative_time,
        ok ==> final(search).step_times_by_id@ == step_times(
            graph_of(steps@),
            print_job.PageCount,
        ),
        ok ==> forall|kind: DocID| #[trigger]
            kind_total(graph_of(steps@), print_job.PageCount, kind, steps@.len()) <= u32::MAX,
        !ok ==> exists|kind: DocID| #[trigger]
            kind_total(graph_of(steps@), print_job.PageCount, kind, steps@.len()) > u32::MAX,
{
    let ghost graph = graph_of(steps@);
    let ghost pages = print_job.PageCount;
    let n = steps.len();
    let mut i: usize = 0;
    while i < n
        invariant
            i <= n,
            n == steps@.len(),
            graph == graph_of(steps@),
            pages == print_job.PageCount,
            search.visited == old(search).visited,
            search.step_times_cumulative == old(search).step_times_cumulative,
            search.cumulative_time == old(search).cumulative_time,
            forall|kind: DocID|
                search.step_times_by_id@.contains_key(kind) <==> #[trigger] kind_present(
                    graph,
                    kind,
                    i as nat,
                ),
            forall|kind: DocID|
                0 <= #[trigger] kind_total(graph, pages, kind, i as nat) <= u32::MAX,
            forall|kind: DocID| #[trigger]
                search.step_times_by_id@.contains_key(kind) ==> search.step_times_by_id@[kind]
                    == kind_total(graph, pages, kind, i as nat),
        decreases n - i,
    {
        let id = steps[i].data.id();
        let cost = simulate_step(print_job, &steps[i]);
        let ghost before = search.step_times_by_id@;
        proof {
            lemma_step_cost_bounds(steps@[i as int].data, pages);
            assert(graph[i as int].data == steps@[i as int].data);
            assert(kind_total(graph, pages, id, (i + 1) as nat) == kind_total(
                graph,
                pages,
                id,
                i as nat,
            ) + cost);
            if !kind_present(graph, id, i as nat) {
                lemma_absent_kind_total(graph, pages, id, i as nat);
            }
        }
        let so_far: u64 = match search.step_times_by_id.get(&id) {
            Some(val) => *val as u64,
            None => 0,
        };
        assert(so_far == kind_total(graph, pages, id, i as nat));
        if so_far + cost > u32::MAX as u64 {
            proof {
                lemma_kind_total_grows(graph, pages, id, (i + 1) as nat, n as nat);
            }
            return false;
        }
        search.update_step_time_by_id(&id, cost as u32);
        proof {
            assert forall|kind: DocID|
                search.step_times_by_id@.contains_key(kind) <==> #[trigger] kind_present(
                    graph,
                    kind,
                    (i + 1) as nat,
                ) by {
                if kind_present(graph, kind, (i + 1) as nat) {
                    let a = choose|a: int|
                        0 <= a < i + 1 && a < graph.len() && (#[trigger] graph[a]).data.spec_id()
                            == kind;
                    if a < i {
                        assert(kind_present(graph, kind, i as nat));
                    }
                }
                if kind == id {
                    assert(graph[i as int].data.spec_id() == kind);
                }
                if kind_present(graph, kind, i as nat) {
                    let a = choose|a: int|
                        0 <= a < i && a < graph.len() && (#[trigger] graph[a]).data.spec_id()
                            == kind;
                    assert(graph[a].data.spec_id() == kind);
                }
            }
            assert forall|kind: DocID|
                0 <= #[trigger] kind_total(graph, pages, kind, (i + 1) as nat) <= u32::MAX by {
                assert(0 <= kind_total(graph, pages, kind, i as nat) <= u32::MAX);
            }
            assert forall|kind: DocID| #[trigger]
                search.step_times_by_id@.contains_key(kind) implies search.step_times_by_id@[kind]
                == kind_total(graph, pages, kind, (i + 1) as nat) by {
                if kind != id {
                    assert(before.contains_key(kind));
                }
            }
        }
        i = i + 1;
    }
    proof {
        assert(search.step_times_by_id@ =~= step_times(graph, pages)) by {
            assert forall|kind: DocID|
                search.step_times_by_id@.contains_key(kind) <==> step_times(
                    graph,
                    pages,
                ).contains_key(kind) by {
                assert(search.step_times_by_id@.contains_key(kind) <==> kind_present(
                    graph,
                    kind,
                    n as nat,
                ));
            }
            assert forall|kind: DocID| #[trigger]
                search.step_times_by_id@.contains_key(kind) implies search.step_times_by_id@[kind]
                == step_times(graph, pages)[kind] by {
                assert(0 <= kind_total(graph, pages, kind, n as nat) <= u32::MAX);
            }
        }
    }
    true
}

/// What the search has recorded is right: every node that is done has
/// its critical time recorded, the latest time recorded is no earlier
/// than any of them, and is the time of one of them unless it is 0.
spec fn times_recorded(graph: Seq<NodeView>, pages: u32, search: Search) -> bool {
    &&& search.visited@.len() == graph.len()
    &&& search.step_times_cumulative@.len() == graph.len()
    &&& forall|x: int|
        0 <= x < graph.len() && #[trigger] search.visited@[x] ==> {
            &&& search.step_times_cumulative@[x] == critical_time(graph, pages, x)
            &&& critical_time(graph, pages, x) <= search.cumulative_time
        }
    &&& search.cumulative_time == 0 || exists|x: int|
        0 <= x < graph.len() && #[trigger] search.visited@[x] && critical_time(graph, pages, x)
            == search.cumulative_time
}

/// Finishes the node `step`, all of whose predecessors are done: records
/// when it finishes, which is its cost after the latest of them. Returns
/// false if that time does not fit 32 bits.
fn traverse_graph(
    print_job: &PrintJob,
    steps: &Vec<WorkflowNode>,
    search: &mut Search,
    step: usize,
) -> (ok: bool)
    requires
        edges_in_bounds(graph_of(steps@)),
        edges_consistent(graph_of(steps@)),
        acyclic(graph_of(steps@)),
        step < steps@.len(),
        times_recorded(graph_of(steps@), print_job.PageCount, *old(search)),
        forall|k: int|
            0 <= k < graph_of(steps@)[step as int].prev.len() ==> old(search).visited@[(
            #[trigger] graph_of(steps@)[step as int].prev[k]) as int],
    ensures
        final(search).step_times_by_id == old(search).step_times_by_id,
        old(search).visited@[step as int] ==> ok && *final(search) == *old(search),
        ok ==> times_recorded(graph_of(steps@), print_job.PageCount, *final(search)),
        ok ==> final(search).visited@ == old(search).visited@.update(step as int, true),
        ok && !old(search).visited@[step as int] ==> {
            &&& final(search).step_times_cumulative@ == old(search).step_times_cumulative@.update(
                step as int,
                critical_time(graph_of(steps@), print_job.PageCount, step as int) as u32,
            )
            &&& final(search).cumulative_time == later(
                old(search).cumulative_time as int,
                critical_time(graph_of(steps@), print_job.PageCount, step as int),
            )
        },
        !ok ==> critical_time(graph_of(steps@), print_job.PageCount, step as int) > u32::MAX,
{
    let ghost graph = graph_of(steps@);
    let ghost pages = print_job.PageCount;
    let ghost before = *search;
    if !search.visit(step) {
        return true;
    }
    let cost = simulate_step(print_job, &steps[step]);
    let count = steps[step].prev.len();
    let mut latest: u32 = 0;
    let mut k: usize = 0;
    while k < count
        invariant
            graph == graph_of(steps@),
            pages == print_job.PageCount,
            edges_in_bounds(graph),
            step < steps@.len(),
            count == graph[step as int].prev.len(),
            k <= count,
            times_recorded(graph, pages, before),
            search.step_times_cumulative == before.step_times_cumulative,
            forall|m: int|
                0 <= m < count ==> before.visited@[(#[trigger] graph[step as int].prev[m]) as int],
            latest == latest_critical(graph, pages, graph[step as int].prev, k as nat),
        decreases count - k,
    {
        let u = steps[step].prev[k];
        assert(u == graph[step as int].prev[k as int]);
        assert(before.visited@[u as int]);
        let time = search.get_step_time_cumulative(u);
        if time > latest {
            latest = time;
        }
        k = k + 1;
    }
    proof {
        lemma_critical_time_unfolds(graph, pages, step as int);
        lemma_step_cost_bounds(graph[step as int].data, pages);
    }
    let time = cost + latest as u64;
    if time > u32::MAX as u64 {
        return false;
    }
    search.update_step_time_cumulative(step, time as u32);
    proof {
        assert forall|x: int| 0 <= x < graph.len() && #[trigger] search.visited@[x] implies {
            &&& search.step_times_cumulative@[x] == critical_time(graph, pages, x)
            &&& critical_time(graph, pages, x) <= search.cumulative_time
        } by {
            if x != step {
                assert(before.visited@[x]);
            }
        }
        if search.cumulative_time != 0 {
            if search.cumulative_time == time {
                assert(search.visited@[step as int]);
            } else {
                let x = choose|x: int|
                    0 <= x < graph.len() && #[trigger] before.visited@[x] && critical_time(
                        graph,
                        pages,
                        x,
                    ) == before.cumulative_time;
                assert(search.visited@[x]);
            }
        }
    }
    true
}

/// Finishes the nodes in the given order, which lists every node after
/// all its predecessors. Returns false if a finish time does not fit 32
/// bits.
fn traverse_list(
    order: &Vec<usize>,
    print_job: &PrintJob,
    all_steps: &Vec<WorkflowNode>,
    search: &mut Search,
) -> (ok: bool)
    requires
        edges_in_bounds(graph_of(all_steps@)),
        edges_consistent(graph_of(all_steps@)),
        acyclic(graph_of(all_steps@)),
        is_topological_order(graph_of(all_steps@), order@),
        old(search).visited@ == Seq::new(all_steps@.len(), |i: int| false),
        old(search).step_times_cumulative@.len() == all_steps@.len(),
        old(search).cumulative_time == 0,
    ensures
        final(search).step_times_by_id == old(search).step_times_by_id,
        ok ==> times_recorded(graph_of(all_steps@), print_job.PageCount, *final(search)),
        ok ==> forall|v: int| 0 <= v < all_steps@.len() ==> final(search).visited@[v],
        ok ==> forall|v: int|
            0 <= v < all_steps@.len() ==> final(search).step_times_cumulative@[v]
                == #[trigger] critical_time(graph_of(all_steps@), print_job.PageCount, v),
        ok ==> final(search).cumulative_time == total_time(
            graph_of(all_steps@),
            print_job.PageCount,
        ),
        ok ==> forall|v: int|
            0 <= v < all_steps@.len() ==> #[trigger] critical_time(
                graph_of(all_steps@),
                print_job.PageCount,
                v,
            ) <= u32::MAX,
        !ok ==> exists|v: int|
            0 <= v < all_steps@.len() && #[trigger] critical_time(
                graph_of(all_steps@),
                print_job.PageCount,
                v,
            ) > u32::MAX,
{
    let ghost graph = graph_of(all_steps@);
    let ghost pages = print_job.PageCount;
    let mut at: usize = 0;
    while at < order.len()
        invariant
            graph == graph_of(all_steps@),
            pages == print_job.PageCount,
            edges_in_bounds(graph),
            edges_consistent(graph),
            acyclic(graph),
            is_topological_order(graph, order@),
            at <= order@.len(),
            search.step_times_by_id == old(search).step_times_by_id,
            times_recorded(graph, pages, *search),
            forall|p: int| 0 <= p < at ==> search.visited@[(#[trigger] order@[p]) as int],
        decreases order@.len() - at,
    {
        let step = order[at];
        let ghost before = *search;
        proof {
            assert forall|k: int| 0 <= k < graph[step as int].prev.len() implies search.visited@[(
            #[trigger] graph[step as int].prev[k]) as int] by {
                let u = graph[order@[at as int] as int].prev[k];
                assert(listed_before(order@, at as int, u));
                let q = choose|q: int| 0 <= q < at && #[trigger] order@[q] == u;
                assert(search.visited@[order@[q] as int]);
            }
        }
        if !traverse_graph(print_job, all_steps, search, step) {
            return false;
        }
        proof {
            assert forall|p: int| 0 <= p < at + 1 implies search.visited@[(
            #[trigger] order@[p]) as int] by {
                if p < at {
                    assert(before.visited@[order@[p] as int]);
                }
            }
        }
        at = at + 1;
    }
    proof {
        assert forall|v: int| 0 <= v < graph.len() implies search.visited@[v] by {
            assert(order@.contains(v as usize));
            let p = choose|p: int| 0 <= p < order@.len() && order@[p] == v as usize;
            assert(search.visited@[order@[p] as int]);
        }
        assert forall|v: int| 0 <= v < graph.len() implies #[trigger] critical_time(
            graph,
            pages,
            v,
        ) <= search.cumulative_time && search.step_times_cumulative@[v] == critical_time(
            graph,
            pages,
            v,
        ) by {
            assert(search.visited@[v]);
        }
        lemma_total_time(graph, pages, graph.len(), search.cumulative_time as int);
    }
    true
}

/// `r` is what simulating a job of `pages` pages on the graph yields:
/// for an invalid graph the fault that validation finds; a simulation
/// error if a time does not fit 32 bits; else a report that is not stored
/// yet, with the given ids and creation time, the length of the critical
/// path as the total time, and for each kind that occurs the cost of all
/// its nodes.
pub open spec fn is_simulated(
    print_job_id: DocID,
    workflow_id: DocID,
    pages: u32,
    graph: Seq<NodeView>,
    creation_time: u32,
    r: Result<SimulationReport, CustomError>,
) -> bool {
    match validation_fault(graph) {
        Some(fault) => r is Err && r->Err_0 == CustomError::InvalidWorkflow(fault),
        None => if time_overflows(graph, pages) {
            r is Err && r->Err_0 == CustomError::SimulationError
        } else {
            &&& r is Ok
            &&& r->Ok_0.id is None
            &&& r->Ok_0.PrintJobID == print_job_id
            &&& r->Ok_0.WorkflowID == workflow_id
            &&& r->Ok_0.CreationTime == creation_time
            &&& r->Ok_0.TotalTimeTaken == total_time(graph, pages)
            &&& r->Ok_0.StepTimes@ == step_times(graph, pages)
        },
    }
}

/// Simulates the print job on the workflow and reports how long the
/// workflow takes, which is the length of its critical path, and what
/// each kind of step costs in all. An invalid workflow is refused with
/// the fault that validation finds; times that do not fit the report's
/// fields are a simulation error.
pub fn simulate(
    print_job_id: DocID,
    workflow_id: DocID,
    print_job: &PrintJob,
    workflow: &Workflow,
    creation_time: u32,
) -> (r: Result<SimulationReport, CustomError>)
    ensures
        is_simulated(
            print_job_id,
            workflow_id,
            print_job.PageCount,
            workflow@.steps,
            creation_time,
            r,
        ),
{
    let order = match ordered_workflow(&workflow.steps) {
        Ok(order) => order,
        Err(fault) => {
            return Err(CustomError::InvalidWorkflow(fault));
        },
    };
    let mut search = Search::new(workflow);
    if !aggregate_step_times(print_job, &workflow.steps, &mut search) {
        return Err(CustomError::SimulationError);
    }
    if !traverse_list(&order, print_job, &workflow.steps, &mut search) {
        return Err(CustomError::SimulationError);
    }
    Ok(
        SimulationReport::new(
            print_job_id,
            workflow_id,
            creation_time,
            search.get_cumulative_time(),
            search.get_step_times_by_id(),
        ),
    )
}

/// No node finishes before any node in its `prev` list, and none at a
/// negative time.
pub proof fn lemma_finishes_after_predecessors(graph: Seq<NodeView>, pages: u32, v: int, u: int)
    requires
        edges_in_bounds(graph),
        edges_consistent(graph),
        acyclic(graph),
        has_back_link(graph, v, u),
    ensures
        0 <= critical_time(graph, pages, u) <= critical_time(graph, pages, v),
{
    lemma_critical_time_unfolds(graph, pages, v);
    lemma_critical_time_unfolds(graph, pages, u);
    lemma_step_cost_bounds(graph[v].data, pages);
    lemma_step_cost_bounds(graph[u].data, pages);
    lemma_latest_critical(graph, pages, graph[v].prev, graph[v].prev.len());
    lemma_latest_critical(graph, pages, graph[u].prev, graph[u].prev.len());
    let k = choose|k: int| 0 <= k < graph[v].prev.len() && graph[v].prev[k] == u as usize;
    assert(critical_time(graph, pages, graph[v].prev[k] as int) <= latest_critical(
        graph,
        pages,
        graph[v].prev,
        graph[v].prev.len(),
    ));
}

/// Along a walk that follows `prev` lists the finish times never grow.
proof fn lemma_backward_walk_times(graph: Seq<NodeView>, pages: u32, walk: Seq<int>, k: int)
    requires
        edges_in_bounds(graph),
        edges_consistent(graph),
        acyclic(graph),
        is_walk(graph, false, walk),
        0 <= k < walk.len(),
    ensures
        critical_time(graph, pages, walk[k]) <= critical_time(graph, pages, walk[0]),
    decreases k,
{
    if k > 0 {
        lemma_backward_walk_times(graph, pages, walk, k - 1);
        assert(linked(graph, false, walk[k - 1], walk[k]));
        lemma_finishes_after_predecessors(graph, pages, walk[k - 1], walk[k]);
    }
}

/// In a valid workflow the critical path ends at a sink: no sink
/// finishes later than `total_time`, and some sink finishes exactly then.
pub proof fn lemma_total_time_is_latest_sink(graph: Seq<NodeView>, pages: u32)
    requires
        valid_graph(graph),
    ensures
        forall|s: int| #[trigger]
            is_sink(graph, s) ==> critical_time(graph, pages, s) <= total_time(graph, pages),
        exists|s: int| #[trigger]
            is_sink(graph, s) && critical_time(graph, pages, s) == total_time(graph, pages),
{
    lemma_latest_below(graph, pages, graph.len());
    let total = total_time(graph, pages);
    let v = if total == 0 {
        0
    } else {
        choose|v: int| 0 <= v < graph.len() && #[trigger] critical_time(graph, pages, v) == total
    };
    assert(reached(graph, true, v) && reached(graph, false, v));
    let walk = choose|walk: Seq<int>|
        #![trigger is_walk(graph, false, walk)]
        is_walk(graph, false, walk) && is_sink(graph, walk[0]) && walk[walk.len() - 1] == v;
    lemma_backward_walk_times(graph, pages, walk, walk.len() - 1);
    let s = walk[0];
    assert(critical_time(graph, pages, s) <= total);
    if total == 0 {
        lemma_critical_time_unfolds(graph, pages, s);
        lemma_step_cost_bounds(graph[s].data, pages);
        lemma_latest_critical(graph, pages, graph[s].prev, graph[s].prev.len());
    }
    assert(is_sink(graph, s) && critical_time(graph, pages, s) == total);
}

/// Simulation is a function of the print job and the workflow: two
/// results for one job and one workflow fail alike, or report the same
/// total time and the same time for every kind, in whatever order the
/// nodes were worked on.
pub proof fn lemma_simulation_is_deterministic(
    print_job_id: DocID,
    workflow_id: DocID,
    pages: u32,
    graph: Seq<NodeView>,
    creation_time: u32,
    first: Result<SimulationReport, CustomError>,
    second: Result<SimulationReport, CustomError>,
)
    requires
        is_simulated(print_job_id, workflow_id, pages, graph, creation_time, first),
        is_simulated(print_job_id, workflow_id, pages, graph, creation_time, second),
    ensures
        first is Ok <==> second is Ok,
        first is Err ==> first->Err_0 == second->Err_0,
        first is Ok ==> first->Ok_0.TotalTimeTaken == second->Ok_0.TotalTimeTaken,
        first is Ok ==> first->Ok_0.StepTimes@ == second->Ok_0.StepTimes@,
{
}

/// The cost of the first `m` nodes, each node counted once.
pub open spec fn cost_of_nodes(graph: Seq<NodeView>, pages: u32, m: nat) -> int
    decreases m,
{
    if m == 0 || m > graph.len() {
        0
    } else {
        cost_of_nodes(graph, pages, (m - 1) as nat) + step_cost(graph[m - 1].data, pages)
    }
}

/// The totals of the kinds with an id below `k`, added up.
pub open spec fn cost_of_kinds(graph: Seq<NodeView>, pages: u32, m: nat, k: nat) -> int
    decreases k,
{
    if k == 0 {
        0
    } else {
        cost_of_kinds(graph, pages, m, (k - 1) as nat) + kind_total(
            graph,
            pages,
            (k - 1) as DocID,
            m,
        )
    }
}

/// One more node adds its cost to the total of its own kind alone.
proof fn lemma_cost_of_kinds_grows(graph: Seq<NodeView>, pages: u32, m: nat, k: nat)
    requires
        0 < m <= graph.len(),
        k <= DocID::MAX,
    ensures
        cost_of_kinds(graph, pages, m, k) == cost_of_kinds(graph, pages, (m - 1) as nat, k) + (
        if graph[m - 1].data.spec_id() < k {
            step_cost(graph[m - 1].data, pages)
        } else {
            0
        }),
    decreases k,
{
    if k > 0 {
        lemma_cost_of_kinds_grows(graph, pages, m, (k - 1) as nat);
    }
}

/// Every node counts exactly once: the times of all kinds add up to the
/// cost of all nodes.
pub proof fn lemma_every_node_counts_once(graph: Seq<NodeView>, pages: u32, m: nat)
    requires
        m <= graph.len(),
    ensures
        cost_of_kinds(graph, pages, m, KIND_COUNT as nat) == cost_of_nodes(graph, pages, m),
    decreases m,
{
    if m > 0 {
        lemma_every_node_counts_once(graph, pages, (m - 1) as nat);
        lemma_cost_of_kinds_grows(graph, pages, m, KIND_COUNT as nat);
    } else {
        reveal_with_fuel(cost_of_kinds, 11);
    }
}

} // verus!
