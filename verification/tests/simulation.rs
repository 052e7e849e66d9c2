use backend::database::{CustomError, PrintJob, WorkflowFault};
use backend::simulation::{simulate, simulate_step, Search};
use backend::workflow::{build_workflow, Workflow, WorkflowNode};
use backend::workflow_steps::{AssignedWorkflowStepArgs, WFSVariant};
use std::collections::HashMap;

fn step(id: u32) -> AssignedWorkflowStepArgs {
    AssignedWorkflowStepArgs { WorkflowStepID: id, NumCores: None }
}

fn raster(cores: u32) -> AssignedWorkflowStepArgs {
    AssignedWorkflowStepArgs { WorkflowStepID: 5, NumCores: Some(cores) }
}

fn linear(cores: u32) -> Workflow {
    let steps = vec![step(0), step(1), step(2), step(3), step(4), raster(cores), step(6)];
    build_workflow("linear".to_string(), &steps).unwrap()
}

fn job(pages: u32) -> PrintJob {
    PrintJob {
        id: Some(3),
        DateCreated: Some(1_700_000_000),
        Title: "job".to_string(),
        PageCount: pages,
        RasterizationProfileID: 1,
    }
}

fn node(data: WFSVariant, prev: Vec<usize>, next: Vec<usize>) -> WorkflowNode {
    WorkflowNode { data, prev, next }
}

fn chain_to_loader() -> Vec<WorkflowNode> {
    vec![
        node(WFSVariant::DownloadFile, vec![], vec![1]),
        node(WFSVariant::Preflight, vec![0], vec![2]),
        node(WFSVariant::Impose, vec![1], vec![3]),
        node(WFSVariant::Analyzer, vec![2], vec![4]),
        node(WFSVariant::ColorSetup, vec![3], vec![5]),
        node(WFSVariant::Rasterization { num_cores: 1 }, vec![4], vec![6]),
    ]
}

#[test]
fn linear_workflow_with_one_core() {
    let report = simulate(3, 8, &job(10), &linear(1), 1_700_000_123).unwrap();
    assert_eq!(report.id, None);
    assert_eq!(report.PrintJobID, 3);
    assert_eq!(report.WorkflowID, 8);
    assert_eq!(report.CreationTime, 1_700_000_123);
    assert_eq!(report.TotalTimeTaken, 642);
    let expected: HashMap<u32, u32> =
        HashMap::from([(0, 10), (1, 210), (2, 50), (3, 50), (4, 12), (5, 200), (6, 110)]);
    assert_eq!(report.StepTimes, expected);
}

#[test]
fn linear_workflow_with_five_cores() {
    let report = simulate(1, 1, &job(10), &linear(5), 0).unwrap();
    assert_eq!(report.TotalTimeTaken, 522);
    assert_eq!(report.StepTimes[&5], 80);
}

#[test]
fn linear_workflow_without_pages() {
    let report = simulate(1, 1, &job(0), &linear(1), 0).unwrap();
    assert_eq!(report.TotalTimeTaken, 162);
    let expected: HashMap<u32, u32> =
        HashMap::from([(0, 0), (1, 10), (2, 0), (3, 0), (4, 2), (5, 50), (6, 100)]);
    assert_eq!(report.StepTimes, expected);
}

#[test]
fn fan_out_after_loader_takes_the_longer_branch() {
    let mut steps = chain_to_loader();
    steps.push(node(WFSVariant::Loader, vec![5], vec![7, 8]));
    steps.push(node(WFSVariant::Cutting, vec![6], vec![]));
    steps.push(node(WFSVariant::Laminating, vec![6], vec![]));
    let workflow = Workflow { id: Some(2), title: "fan".to_string(), steps };
    let report = simulate(1, 2, &job(4), &workflow, 0).unwrap();
    let prefix = 4 + 90 + 20 + 20 + 6 + 110 + 104;
    assert_eq!(report.TotalTimeTaken, prefix + 30);
    assert_eq!(report.StepTimes[&7], 18);
    assert_eq!(report.StepTimes[&8], 30);
}

#[test]
fn inferred_fan_out_runs_cutting_before_laminating() {
    let steps =
        vec![step(0), step(1), step(2), step(3), step(4), raster(1), step(6), step(7), step(8)];
    let workflow = build_workflow("fan".to_string(), &steps).unwrap();
    let report = simulate(1, 2, &job(4), &workflow, 0).unwrap();
    assert_eq!(report.TotalTimeTaken, 354 + 18 + 30);
    assert_eq!(report.StepTimes[&7], 18);
    assert_eq!(report.StepTimes[&8], 30);
}

#[test]
fn the_first_node_need_not_be_a_source() {
    let steps = vec![
        raster(1),
        step(0),
        step(1),
        step(2),
        step(3),
        step(4),
        raster(10),
        step(6),
    ];
    let workflow = build_workflow("two rasterizers".to_string(), &steps).unwrap();
    let report = simulate(1, 1, &job(10), &workflow, 0).unwrap();
    assert_eq!(report.TotalTimeTaken, 642);
    assert_eq!(report.StepTimes[&5], 200 + 65);
    assert_eq!(report.StepTimes[&6], 110);
}

#[test]
fn every_node_of_a_kind_counts_once() {
    let steps = vec![
        step(0),
        step(0),
        step(1),
        step(2),
        step(3),
        step(4),
        raster(2),
        raster(3),
        step(6),
        step(6),
    ];
    let workflow = build_workflow("doubled".to_string(), &steps).unwrap();
    let report = simulate(1, 1, &job(7), &workflow, 0).unwrap();
    assert_eq!(report.StepTimes[&0], 14);
    assert_eq!(report.StepTimes[&1], 150);
    assert_eq!(report.StepTimes[&5], (4 * 15 + 50) + (3 * 15 + 50));
    assert_eq!(report.StepTimes[&6], 214);
    assert_eq!(report.StepTimes.len(), 7);
    assert_eq!(report.TotalTimeTaken, 7 + 150 + 35 + 35 + 9 + 110 + 107);
}

#[test]
fn simulating_twice_gives_the_same_report() {
    let workflow = linear(4);
    let a = simulate(1, 1, &job(33), &workflow, 5).unwrap();
    let b = simulate(1, 1, &job(33), &workflow, 5).unwrap();
    assert_eq!(a.TotalTimeTaken, b.TotalTimeTaken);
    assert_eq!(a.StepTimes, b.StepTimes);
}

#[test]
fn total_time_is_the_latest_sink() {
    let steps =
        vec![step(0), step(1), step(2), step(3), step(4), raster(1), step(6), step(7), step(8)];
    let workflow = build_workflow("fan".to_string(), &steps).unwrap();
    let report = simulate(1, 2, &job(100), &workflow, 0).unwrap();
    let loader = 100 + 2010 + 500 + 500 + 102 + 1550 + 200;
    let cutting = loader + 210;
    let laminating = cutting + 510;
    assert_eq!(report.TotalTimeTaken, laminating);
}

#[test]
fn times_beyond_32_bits_are_an_error() {
    let r = simulate(1, 1, &job(u32::MAX), &linear(1), 0);
    assert_eq!(r.err(), Some(CustomError::SimulationError));
    let r = simulate(1, 1, &job(1 << 20), &linear(1), 0);
    let per_page: u32 = 1 + 20 + 5 + 5 + 1 + 15 + 1;
    assert_eq!(r.unwrap().TotalTimeTaken, (1 << 20) * per_page + 162);
}

#[test]
fn a_cyclic_workflow_is_not_simulated() {
    let mut steps = chain_to_loader();
    steps.push(node(WFSVariant::Loader, vec![5], vec![7]));
    steps.push(node(WFSVariant::Cutting, vec![6, 8], vec![8]));
    steps.push(node(WFSVariant::Metrics, vec![7], vec![7]));
    let workflow = Workflow { id: Some(1), title: "cyclic".to_string(), steps };
    let r = simulate(1, 1, &job(10), &workflow, 0);
    assert_eq!(r.err(), Some(CustomError::InvalidWorkflow(WorkflowFault::Cycle)));
}

#[test]
fn an_empty_workflow_is_not_simulated() {
    let workflow = Workflow { id: None, title: "empty".to_string(), steps: vec![] };
    let r = simulate(1, 1, &job(10), &workflow, 0);
    assert_eq!(r.err(), Some(CustomError::InvalidWorkflow(WorkflowFault::EmptyWorkflow)));
}

#[test]
fn cost_of_one_step() {
    let pj = job(10);
    let cost = |data: WFSVariant| simulate_step(&pj, &node(data, vec![], vec![]));
    assert_eq!(cost(WFSVariant::DownloadFile), 10);
    assert_eq!(cost(WFSVariant::Preflight), 210);
    assert_eq!(cost(WFSVariant::Rasterization { num_cores: 1 }), 200);
    assert_eq!(cost(WFSVariant::Rasterization { num_cores: 0 }), 200);
    assert_eq!(cost(WFSVariant::Rasterization { num_cores: 3 }), 4 * 15 + 50);
    assert_eq!(cost(WFSVariant::Rasterization { num_cores: 5 }), 80);
    assert_eq!(cost(WFSVariant::Rasterization { num_cores: 10 }), 65);
    assert_eq!(cost(WFSVariant::Rasterization { num_cores: 11 }), 65);
    assert_eq!(cost(WFSVariant::Metrics), 12);
    let big = job(u32::MAX);
    assert_eq!(
        simulate_step(&big, &node(WFSVariant::Preflight, vec![], vec![])),
        u32::MAX as u64 * 20 + 10
    );
}

#[test]
fn search_state() {
    let workflow = linear(1);
    let mut search = Search::new(&workflow);
    assert_eq!(search.visited, vec![false; 7]);
    assert_eq!(search.step_times_cumulative, vec![0; 7]);
    assert!(search.get_step_times_by_id().is_empty());
    assert_eq!(search.get_cumulative_time(), 0);

    assert!(search.visit(2));
    assert!(!search.visit(2));
    assert_eq!(search.visited, vec![false, false, true, false, false, false, false]);

    search.update_step_time_cumulative(2, 40);
    search.update_step_time_cumulative(4, 25);
    assert_eq!(search.get_step_time_cumulative(2), 40);
    assert_eq!(search.get_step_time_cumulative(4), 25);
    assert_eq!(search.get_step_time_cumulative(0), 0);
    assert_eq!(search.get_cumulative_time(), 40);

    search.update_step_time_by_id(&5, 7);
    search.update_step_time_by_id(&5, 8);
    search.update_step_time_by_id(&6, 1);
    let expected: HashMap<u32, u32> = HashMap::from([(5, 15), (6, 1)]);
    assert_eq!(search.get_step_times_by_id(), expected);
}
