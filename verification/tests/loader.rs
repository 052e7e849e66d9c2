use backend::database::{CustomError, WorkflowFault};
use backend::loader::{find_workflow, workflow_rows};
use backend::workflow::build_workflow;
use backend::workflow_steps::{AssignedWorkflowStep, AssignedWorkflowStepArgs, WFSVariant};

fn row(id: u32, kind: u32, prev: Vec<usize>, next: Vec<usize>) -> AssignedWorkflowStep {
    AssignedWorkflowStep { id, WorkflowStepID: kind, param_id: None, Prev: prev, Next: next }
}

fn linear_rows() -> (Vec<AssignedWorkflowStep>, Vec<Option<u32>>) {
    let rows = vec![
        row(100, 0, vec![], vec![101]),
        row(101, 1, vec![100], vec![102]),
        row(102, 2, vec![101], vec![103]),
        row(103, 3, vec![102], vec![104]),
        row(104, 4, vec![103], vec![105]),
        row(105, 5, vec![104], vec![106]),
        row(106, 6, vec![105], vec![]),
    ];
    let params = vec![None, None, None, None, None, Some(3), None];
    (rows, params)
}

fn mismatch() -> Option<CustomError> {
    Some(CustomError::InvalidWorkflow(WorkflowFault::CatalogMismatch))
}

#[test]
fn stored_rows_become_a_workflow() {
    let (rows, params) = linear_rows();
    let wf = find_workflow(42, "stored".to_string(), &rows, &params).unwrap();
    assert_eq!(wf.id, Some(42));
    assert_eq!(wf.title, "stored");
    assert_eq!(wf.steps.len(), 7);
    for i in 0..7 {
        let prev: Vec<usize> = if i == 0 { vec![] } else { vec![i - 1] };
        let next: Vec<usize> = if i == 6 { vec![] } else { vec![i + 1] };
        assert_eq!(wf.steps[i].prev, prev);
        assert_eq!(wf.steps[i].next, next);
    }
    assert_eq!(wf.steps[5].data, WFSVariant::Rasterization { num_cores: 3 });
    assert_eq!(wf.steps[6].data, WFSVariant::Loader);
}

#[test]
fn a_poisoned_back_edge_is_a_cycle() {
    let (mut rows, params) = linear_rows();
    rows[6].Next.push(100);
    rows[0].Prev.push(106);
    let r = find_workflow(1, "t".to_string(), &rows, &params);
    assert_eq!(r.err(), Some(CustomError::InvalidWorkflow(WorkflowFault::Cycle)));
}

#[test]
fn lists_that_disagree_are_a_mismatch() {
    let (mut rows, params) = linear_rows();
    rows[6].Next.push(100);
    let r = find_workflow(1, "t".to_string(), &rows, &params);
    assert_eq!(r.err(), mismatch());
}

#[test]
fn a_stored_edge_against_the_rules_is_a_mismatch() {
    let (mut rows, params) = linear_rows();
    rows[0].Next.push(106);
    rows[6].Prev.push(100);
    let r = find_workflow(1, "t".to_string(), &rows, &params);
    assert_eq!(r.err(), mismatch());
}

#[test]
fn unknown_rows_kinds_and_parameters_are_a_mismatch() {
    let (mut rows, params) = linear_rows();
    rows[3].Next.push(999);
    assert_eq!(find_workflow(1, "t".to_string(), &rows, &params).err(), mismatch());

    let (mut rows, params) = linear_rows();
    rows[3].Prev.push(usize::MAX);
    assert_eq!(find_workflow(1, "t".to_string(), &rows, &params).err(), mismatch());

    let (mut rows, params) = linear_rows();
    rows[2].WorkflowStepID = 10;
    assert_eq!(find_workflow(1, "t".to_string(), &rows, &params).err(), mismatch());

    let (rows, mut params) = linear_rows();
    params[5] = None;
    assert_eq!(find_workflow(1, "t".to_string(), &rows, &params).err(), mismatch());

    let (rows, mut params) = linear_rows();
    params[1] = Some(2);
    assert_eq!(find_workflow(1, "t".to_string(), &rows, &params).err(), mismatch());

    let (rows, mut params) = linear_rows();
    params.pop();
    assert_eq!(find_workflow(1, "t".to_string(), &rows, &params).err(), mismatch());
}

#[test]
fn stored_faults_are_found_at_load_time() {
    let r = find_workflow(1, "t".to_string(), &vec![], &vec![]);
    assert_eq!(r.err(), Some(CustomError::InvalidWorkflow(WorkflowFault::EmptyWorkflow)));

    let (rows, mut params) = linear_rows();
    params[5] = Some(0);
    let r = find_workflow(1, "t".to_string(), &rows, &params);
    assert_eq!(r.err(), Some(CustomError::InvalidWorkflow(WorkflowFault::OutOfRangeParameter)));

    let rows = vec![row(1, 0, vec![], vec![2]), row(2, 1, vec![1], vec![])];
    let r = find_workflow(1, "t".to_string(), &rows, &vec![None, None]);
    assert_eq!(r.err(), Some(CustomError::InvalidWorkflow(WorkflowFault::IllegalSink)));

    let rows = vec![row(1, 6, vec![], vec![])];
    let r = find_workflow(1, "t".to_string(), &rows, &vec![None]);
    assert_eq!(r.err(), Some(CustomError::InvalidWorkflow(WorkflowFault::IllegalSource)));
}

#[test]
fn of_two_rows_with_one_id_the_later_counts() {
    let rows = vec![
        row(1, 0, vec![], vec![2]),
        row(2, 1, vec![1], vec![3]),
        row(3, 2, vec![2], vec![3]),
        row(3, 2, vec![2], vec![]),
    ];
    let r = find_workflow(1, "t".to_string(), &rows, &vec![None; 4]);
    assert_eq!(r.err(), mismatch());
}

#[test]
fn what_is_stored_loads_back() {
    let args: Vec<AssignedWorkflowStepArgs> = [0u32, 1, 2, 3, 4, 5, 5, 6, 7, 8]
        .iter()
        .map(|&id| AssignedWorkflowStepArgs {
            WorkflowStepID: id,
            NumCores: if id == 5 { Some(4) } else { None },
        })
        .collect();
    let built = build_workflow("round".to_string(), &args).unwrap();
    let ids: Vec<u32> = vec![31, 7, 1000, 12, 5, 90, 91, 2, 4_000_000_000, 0];
    let stored = workflow_rows(&built, &ids).unwrap();
    assert_eq!(stored.rows.len(), 10);
    assert_eq!(stored.rows[4].id, 5);
    assert_eq!(stored.rows[4].WorkflowStepID, 4);
    assert_eq!(stored.rows[4].Prev, vec![12]);
    assert_eq!(stored.rows[4].Next, vec![90, 91]);
    assert_eq!(stored.params[4], None);
    assert_eq!(stored.params[5], Some(4));
    let loaded = find_workflow(9, "round".to_string(), &stored.rows, &stored.params).unwrap();
    assert_eq!(loaded.steps.len(), built.steps.len());
    for i in 0..built.steps.len() {
        assert_eq!(loaded.steps[i].data, built.steps[i].data);
        assert_eq!(loaded.steps[i].prev, built.steps[i].prev);
        assert_eq!(loaded.steps[i].next, built.steps[i].next);
    }
}

#[test]
fn rows_need_an_id_for_every_node() {
    let args = vec![AssignedWorkflowStepArgs { WorkflowStepID: 0, NumCores: None }];
    let mut wf = build_workflow("t".to_string(), &args).err();
    assert!(wf.take().is_some());
    let args: Vec<AssignedWorkflowStepArgs> = [0u32, 1, 2, 3, 4, 5, 6]
        .iter()
        .map(|&id| AssignedWorkflowStepArgs {
            WorkflowStepID: id,
            NumCores: if id == 5 { Some(1) } else { None },
        })
        .collect();
    let mut built = build_workflow("t".to_string(), &args).unwrap();
    assert!(workflow_rows(&built, &vec![1, 2, 3]).is_none());
    built.steps[0].next.push(7);
    assert!(workflow_rows(&built, &vec![1, 2, 3, 4, 5, 6, 7]).is_none());
}
