use backend::database::{CustomError, WorkflowFault};
use backend::reach::reach;
use backend::topology::topological_order;
use backend::validation::{
    follows_validation_rules, get_validation_rules, is_valid_workflow, ordered_workflow,
    validate_workflow,
};
use backend::workflow::{build_workflow, WorkflowArgs, WorkflowNode};
use backend::workflow_steps::{all_variants, AssignedWorkflowStepArgs, WFSVariant};
use std::collections::HashSet;

fn node(data: WFSVariant, prev: Vec<usize>, next: Vec<usize>) -> WorkflowNode {
    WorkflowNode { data, prev, next }
}

fn chain() -> Vec<WorkflowNode> {
    vec![
        node(WFSVariant::DownloadFile, vec![], vec![1]),
        node(WFSVariant::Preflight, vec![0], vec![2]),
        node(WFSVariant::Impose, vec![1], vec![3]),
        node(WFSVariant::Analyzer, vec![2], vec![4]),
        node(WFSVariant::ColorSetup, vec![3], vec![5]),
        node(WFSVariant::Rasterization { num_cores: 2 }, vec![4], vec![6]),
        node(WFSVariant::Loader, vec![5], vec![]),
    ]
}

fn args(ids: &[u32]) -> WorkflowArgs {
    WorkflowArgs {
        id: None,
        Title: "Test Workflow".to_string(),
        WorkflowSteps: ids
            .iter()
            .map(|&id| AssignedWorkflowStepArgs {
                WorkflowStepID: id,
                NumCores: if id == 5 { Some(1) } else { None },
            })
            .collect(),
    }
}

#[test]
fn a_chain_is_valid() {
    assert_eq!(validate_workflow(&chain()), Ok(()));
    assert_eq!(ordered_workflow(&chain()), Ok(vec![0, 1, 2, 3, 4, 5, 6]));
}

#[test]
fn an_empty_graph_is_invalid() {
    assert_eq!(validate_workflow(&vec![]), Err(WorkflowFault::EmptyWorkflow));
}

#[test]
fn a_parameter_out_of_range_is_found_first() {
    let mut nodes = chain();
    nodes[5].data = WFSVariant::Rasterization { num_cores: 0 };
    nodes[6].next.push(99);
    assert_eq!(validate_workflow(&nodes), Err(WorkflowFault::OutOfRangeParameter));
}

#[test]
fn lists_that_leave_the_graph_or_disagree_are_a_mismatch() {
    let mut nodes = chain();
    nodes[6].next.push(7);
    assert_eq!(validate_workflow(&nodes), Err(WorkflowFault::CatalogMismatch));
    let mut nodes = chain();
    nodes[2].prev.push(usize::MAX);
    assert_eq!(validate_workflow(&nodes), Err(WorkflowFault::CatalogMismatch));
    let mut nodes = chain();
    nodes[3].next.clear();
    assert_eq!(validate_workflow(&nodes), Err(WorkflowFault::CatalogMismatch));
    let mut nodes = chain();
    nodes[3].prev.clear();
    assert_eq!(validate_workflow(&nodes), Err(WorkflowFault::CatalogMismatch));
}

#[test]
fn a_hand_made_back_edge_is_a_cycle() {
    let mut nodes = chain();
    nodes[6].next.push(0);
    nodes[0].prev.push(6);
    assert_eq!(validate_workflow(&nodes), Err(WorkflowFault::Cycle));
    let mut nodes = chain();
    nodes[3].next.push(3);
    nodes[3].prev.push(3);
    assert_eq!(validate_workflow(&nodes), Err(WorkflowFault::Cycle));
    let mut nodes = chain();
    nodes.push(node(WFSVariant::Cutting, vec![8], vec![8]));
    nodes.push(node(WFSVariant::Metrics, vec![7], vec![7]));
    assert_eq!(validate_workflow(&nodes), Err(WorkflowFault::Cycle));
}

#[test]
fn sources_and_sinks_must_be_of_a_legal_kind() {
    let mut nodes = chain();
    nodes.remove(0);
    for n in nodes.iter_mut() {
        n.prev = n.prev.iter().map(|p| p - 1).collect();
        n.next = n.next.iter().map(|p| p - 1).collect();
    }
    nodes[0].prev.clear();
    assert_eq!(validate_workflow(&nodes), Err(WorkflowFault::IllegalSource));
    let mut nodes = chain();
    nodes.pop();
    nodes[5].next.clear();
    assert_eq!(validate_workflow(&nodes), Err(WorkflowFault::IllegalSink));
    let lonely = vec![node(WFSVariant::Impose, vec![], vec![])];
    assert_eq!(validate_workflow(&lonely), Err(WorkflowFault::IllegalSource));
}

#[test]
fn an_edge_against_the_rules_is_a_mismatch() {
    let mut nodes = chain();
    nodes[0].next.push(6);
    nodes[6].prev.push(0);
    assert_eq!(validate_workflow(&nodes), Err(WorkflowFault::CatalogMismatch));
    assert!(!follows_validation_rules(&nodes));
}

#[test]
fn an_order_lists_predecessors_first() {
    let nodes = vec![
        node(WFSVariant::Laminating, vec![1, 2], vec![]),
        node(WFSVariant::Loader, vec![3, 5], vec![0, 2]),
        node(WFSVariant::Cutting, vec![1], vec![0]),
        node(WFSVariant::Rasterization { num_cores: 3 }, vec![4], vec![1]),
        node(WFSVariant::ColorSetup, vec![], vec![3, 5]),
        node(WFSVariant::Rasterization { num_cores: 1 }, vec![4], vec![1]),
    ];
    let order = topological_order(&nodes).unwrap();
    let mut seen: Vec<usize> = order.clone();
    seen.sort();
    assert_eq!(seen, vec![0, 1, 2, 3, 4, 5]);
    for (at, &v) in order.iter().enumerate() {
        for p in &nodes[v].prev {
            assert!(order[..at].contains(p));
        }
    }
    let cyclic = vec![
        node(WFSVariant::Cutting, vec![1], vec![1]),
        node(WFSVariant::Metrics, vec![0], vec![0]),
    ];
    assert_eq!(topological_order(&cyclic), None);
    let mut nodes = chain();
    nodes[2].next.push(4);
    assert_eq!(topological_order(&nodes), None);
    nodes[4].prev.push(2);
    assert_eq!(topological_order(&nodes), Some(vec![0, 1, 2, 3, 4, 5, 6]));
    nodes[4].prev.push(9);
    assert_eq!(topological_order(&nodes), None);
}

#[test]
fn reach_marks_what_sources_and_sinks_lead_to() {
    let nodes = vec![
        node(WFSVariant::Cutting, vec![1], vec![1]),
        node(WFSVariant::Metrics, vec![0], vec![0, 2]),
        node(WFSVariant::Laminating, vec![1], vec![]),
        node(WFSVariant::DownloadFile, vec![], vec![4]),
        node(WFSVariant::Preflight, vec![3], vec![]),
    ];
    assert_eq!(reach(&nodes, true), Some(vec![false, false, false, true, true]));
    assert_eq!(reach(&nodes, false), Some(vec![true, true, true, true, true]));
    assert_eq!(reach(&chain(), true), Some(vec![true; 7]));
    assert_eq!(reach(&chain(), false), Some(vec![true; 7]));
    assert_eq!(reach(&vec![], true), Some(vec![]));
    let mut nodes = chain();
    nodes[6].next.push(7);
    assert_eq!(reach(&nodes, true), None);
    assert_eq!(reach(&nodes, false), None);
}

#[test]
fn the_rules_are_those_of_the_catalog() {
    let rules = get_validation_rules();
    assert_eq!(rules.len(), 10);
    for v in all_variants() {
        let rule = &rules[&v.id()];
        assert_eq!(rule.can_start_here, v.no_prev_valid());
        assert_eq!(rule.can_end_here, v.no_next_valid());
        let next: HashSet<usize> = v.valid_next().iter().map(|n| n.id() as usize).collect();
        let prev: HashSet<usize> = v.valid_prev().iter().map(|n| n.id() as usize).collect();
        assert_eq!(rule.valid_next, next);
        assert_eq!(rule.valid_prev, prev);
    }
    assert_eq!(rules[&6].valid_next, HashSet::from([7, 8, 9]));
    assert_eq!(rules[&6].valid_prev, HashSet::from([5]));
    assert_eq!(rules[&0].valid_prev, HashSet::new());
}

#[test]
fn following_the_rules() {
    assert!(follows_validation_rules(&chain()));
    assert!(follows_validation_rules(&vec![]));
    let mut nodes = chain();
    nodes[6].next.push(0);
    assert!(!follows_validation_rules(&nodes));
    let mut nodes = chain();
    nodes[1].prev.push(4);
    assert!(!follows_validation_rules(&nodes));
    let mut nodes = chain();
    nodes[1].prev.push(40);
    assert!(!follows_validation_rules(&nodes));
    let mut nodes = chain();
    nodes.pop();
    nodes[5].next.clear();
    assert!(!follows_validation_rules(&nodes));
    let one_way = vec![
        node(WFSVariant::DownloadFile, vec![], vec![1]),
        node(WFSVariant::Preflight, vec![], vec![]),
    ];
    assert!(!follows_validation_rules(&one_way));
}

/// A workflow with no workflow steps should be answered with 422.
#[test]
fn test_post_empty_workflow() {
    let payload = args(&[]);
    assert!(!is_valid_workflow(&payload));
    let response = build_workflow(payload.Title.clone(), &payload.WorkflowSteps);
    assert_eq!(
        response.err().map(|e| e.status_code()),
        Some(422),
        "Workflow with no steps should return 422"
    );
}

/// A workflow with a cyclic workflow step sequence should be answered
/// with 422.
#[test]
fn test_post_cyclic_workflow() {
    let payload = args(&[1, 2, 3]);
    assert!(!is_valid_workflow(&payload));
    let response = build_workflow(payload.Title.clone(), &payload.WorkflowSteps);
    assert_eq!(
        response.err().map(|e| e.status_code()),
        Some(422),
        "Cyclic workflow should return 422"
    );
    let payload = args(&[0, 1, 2, 3, 4, 5, 6, 7, 9]);
    assert!(!is_valid_workflow(&payload));
    let response = build_workflow(payload.Title.clone(), &payload.WorkflowSteps);
    assert_eq!(
        response.err(),
        Some(CustomError::InvalidWorkflow(WorkflowFault::Cycle))
    );
}

#[test]
fn valid_arguments_are_accepted() {
    assert!(is_valid_workflow(&args(&[0, 1, 2, 3, 4, 5, 6])));
    assert!(is_valid_workflow(&args(&[6, 5, 4, 3, 2, 1, 0])));
    assert!(is_valid_workflow(&args(&[0, 1, 2, 3, 4, 5, 6, 7, 8])));
    assert!(is_valid_workflow(&args(&[0, 1, 2, 3, 4, 5, 6, 9])));
    assert!(!is_valid_workflow(&args(&[0, 1, 2, 3, 4, 5, 6, 10])));
    assert!(!is_valid_workflow(&args(&[0, 1, 2, 3, 4, 5])));
}
