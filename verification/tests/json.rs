use backend::database::{CustomError, WorkflowFault};
use backend::json::deserialize_steps;
use backend::workflow::build_workflow;
use backend::workflow_steps::{all_variants, AssignedWorkflowStepArgs, WFSVariant};
use serde_json::Value;

type Object = serde_json::Map<String, Value>;

fn object(fields: &[(&str, Value)]) -> Object {
    let mut map = Object::new();
    for (key, value) in fields {
        map.insert(key.to_string(), value.clone());
    }
    map
}

fn request(step: &WFSVariant) -> Object {
    let mut map = object(&[("id", Value::from(step.id()))]);
    if let WFSVariant::Rasterization { num_cores } = step {
        map.insert("num_cores".to_string(), Value::from(*num_cores));
    }
    map
}

#[test]
fn a_step_is_written_with_its_catalog_entry() {
    let record = WFSVariant::Cutting.serialize();
    let expected = object(&[
        ("id", Value::from(7u32)),
        ("title", Value::from("Cutting")),
        ("setup_time", Value::from(10u32)),
        ("time_per_page", Value::from(2u32)),
    ]);
    assert_eq!(record, expected);
    let record = WFSVariant::Rasterization { num_cores: 6 }.serialize();
    let expected = object(&[
        ("id", Value::from(5u32)),
        ("title", Value::from("Rasterization")),
        ("setup_time", Value::from(50u32)),
        ("time_per_page", Value::from(15u32)),
        ("num_cores", Value::from(6u32)),
    ]);
    assert_eq!(record, expected);
}

#[test]
fn a_request_is_read_back_as_the_step() {
    for step in all_variants() {
        assert_eq!(WFSVariant::deserialize(request(&step)), Ok(step));
    }
    for num_cores in [0u32, 1, 10, 11, u32::MAX] {
        let step = WFSVariant::Rasterization { num_cores };
        assert_eq!(WFSVariant::deserialize(request(&step)), Ok(step));
    }
}

#[test]
fn a_written_step_is_read_back() {
    let mut steps = all_variants();
    for num_cores in [1u32, 9, 10, 11, u32::MAX] {
        steps.push(WFSVariant::Rasterization { num_cores });
    }
    for step in steps {
        let record = step.serialize();
        assert_eq!(WFSVariant::deserialize(record.clone()), Ok(step));
        let mut without_description = record;
        without_description.remove("title");
        without_description.remove("setup_time");
        without_description.remove("time_per_page");
        assert_eq!(WFSVariant::deserialize(without_description), Ok(step));
    }
}

#[test]
fn the_description_of_the_kind_may_come_with_the_id() {
    let cases = vec![
        (object(&[("id", Value::from(0u32)), ("title", Value::from("Download File"))]), 0),
        (object(&[("id", Value::from(7u32)), ("setup_time", Value::from(10u32))]), 7),
        (object(&[("time_per_page", Value::from(1u32)), ("id", Value::from(9u32))]), 9),
        (object(&[("id", Value::from(6u32)), ("title", Value::Null)]), 6),
    ];
    for (record, id) in cases {
        assert_eq!(WFSVariant::deserialize(record).map(|step| step.id()), Ok(id));
    }
    let record = object(&[
        ("id", Value::from(5u32)),
        ("title", Value::from("Rasterization")),
        ("num_cores", Value::from(4u32)),
    ]);
    assert_eq!(
        WFSVariant::deserialize(record),
        Ok(WFSVariant::Rasterization { num_cores: 4 })
    );
    let record = object(&[("title", Value::from("Loader")), ("setup_time", Value::from(100u32))]);
    assert_eq!(WFSVariant::deserialize(record), Err(CustomError::InvalidStep));
}

#[test]
fn a_record_without_a_usable_id_is_refused() {
    let cases = vec![
        object(&[]),
        object(&[("num_cores", Value::from(3u32))]),
        object(&[("id", Value::from("0"))]),
        object(&[("id", Value::from(-1i32))]),
        object(&[("id", Value::from(1.5f64))]),
        object(&[("id", Value::from(4_294_967_296u64))]),
        object(&[("id", Value::Null)]),
        object(&[("id", Value::from(10u32))]),
        object(&[("id", Value::from(u32::MAX))]),
    ];
    for case in cases {
        assert_eq!(WFSVariant::deserialize(case), Err(CustomError::InvalidStep));
    }
}

#[test]
fn rasterization_needs_its_cores() {
    let cases = vec![
        object(&[("id", Value::from(5u32))]),
        object(&[("id", Value::from(5u32)), ("num_cores", Value::from("3"))]),
        object(&[("id", Value::from(5u32)), ("num_cores", Value::from(-3i32))]),
        object(&[("id", Value::from(5u32)), ("cores", Value::from(3u32))]),
    ];
    for case in cases {
        assert_eq!(WFSVariant::deserialize(case), Err(CustomError::InvalidStep));
    }
}

#[test]
fn unknown_fields_are_refused() {
    let mut written = WFSVariant::Loader.serialize();
    written.insert("num_cores".to_string(), Value::from(3u32));
    let cases = vec![
        written,
        object(&[("id", Value::from(0u32)), ("Title", Value::from("Download File"))]),
        object(&[("id", Value::from(6u32)), ("num_cores", Value::from(3u32))]),
        object(&[
            ("id", Value::from(5u32)),
            ("num_cores", Value::from(3u32)),
            ("extra", Value::Null),
        ]),
        object(&[("id", Value::from(0u32)), ("", Value::from(0u32))]),
    ];
    for case in cases {
        assert_eq!(WFSVariant::deserialize(case), Err(CustomError::InvalidStep));
    }
}

#[test]
fn steps_are_read_in_order_and_linked() {
    let objects = vec![
        request(&WFSVariant::Loader),
        request(&WFSVariant::Rasterization { num_cores: 2 }),
        request(&WFSVariant::Rasterization { num_cores: 4 }),
        request(&WFSVariant::ColorSetup),
        request(&WFSVariant::Analyzer),
        request(&WFSVariant::Impose),
        request(&WFSVariant::Preflight),
        request(&WFSVariant::DownloadFile),
    ];
    let nodes = deserialize_steps(objects).unwrap();
    assert_eq!(nodes.len(), 8);
    assert_eq!(nodes[0].data, WFSVariant::Loader);
    assert_eq!(nodes[1].data, WFSVariant::Rasterization { num_cores: 2 });
    assert_eq!(nodes[2].data, WFSVariant::Rasterization { num_cores: 4 });
    assert_eq!(nodes[7].data, WFSVariant::DownloadFile);
    assert_eq!(nodes[0].prev, vec![1, 2]);
    assert_eq!(nodes[0].next, Vec::<usize>::new());
    assert_eq!(nodes[1].next, vec![0]);
    assert_eq!(nodes[2].next, vec![0]);
    assert_eq!(nodes[3].next, vec![1, 2]);
    assert_eq!(nodes[7].prev, Vec::<usize>::new());
    assert_eq!(nodes[7].next, vec![6]);
}

#[test]
fn a_written_workflow_is_read_back() {
    let args: Vec<AssignedWorkflowStepArgs> = [0u32, 1, 2, 3, 4, 5, 5, 6, 7, 8]
        .iter()
        .map(|&id| AssignedWorkflowStepArgs {
            WorkflowStepID: id,
            NumCores: if id == 5 { Some(3) } else { None },
        })
        .collect();
    let built = build_workflow("written".to_string(), &args).unwrap();
    let written: Vec<Object> = built.steps.iter().map(|node| node.data.serialize()).collect();
    let read = deserialize_steps(written).unwrap();
    assert_eq!(read.len(), built.steps.len());
    for i in 0..read.len() {
        assert_eq!(read[i].data, built.steps[i].data);
        assert_eq!(read[i].prev, built.steps[i].prev);
        assert_eq!(read[i].next, built.steps[i].next);
    }
}

#[test]
fn records_of_an_invalid_workflow_are_refused() {
    let invalid = |fault| Some(CustomError::InvalidWorkflow(fault));
    assert_eq!(deserialize_steps(vec![]).err(), invalid(WorkflowFault::EmptyWorkflow));
    let objects = vec![
        request(&WFSVariant::Loader),
        request(&WFSVariant::Rasterization { num_cores: 2 }),
    ];
    assert_eq!(deserialize_steps(objects).err(), invalid(WorkflowFault::IllegalSource));
    let mut objects: Vec<Object> = [0u32, 1, 2, 3, 4].iter().map(|&id| {
        request(&backend::workflow_steps::get_variant_by_id(id).unwrap())
    }).collect();
    objects.push(request(&WFSVariant::Rasterization { num_cores: 0 }));
    objects.push(request(&WFSVariant::Loader));
    assert_eq!(
        deserialize_steps(objects.clone()).err(),
        invalid(WorkflowFault::OutOfRangeParameter)
    );
    objects[5] = request(&WFSVariant::Rasterization { num_cores: 1 });
    assert!(deserialize_steps(objects.clone()).is_ok());
    objects.push(request(&WFSVariant::Cutting));
    objects.push(request(&WFSVariant::Metrics));
    assert_eq!(deserialize_steps(objects).err(), invalid(WorkflowFault::Cycle));
}

#[test]
fn one_bad_record_fails_the_list() {
    let objects = vec![
        request(&WFSVariant::DownloadFile),
        object(&[("id", Value::from(77u32))]),
        request(&WFSVariant::Preflight),
    ];
    assert_eq!(deserialize_steps(objects).err(), Some(CustomError::InvalidStep));
}
