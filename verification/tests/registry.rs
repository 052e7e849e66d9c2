use backend::database::CustomError;
use backend::registry::build_workflow_step_table;
use backend::workflow_steps::{all_variants, get_variant_by_id};

#[test]
fn an_empty_store_gets_every_kind() {
    let plan = build_workflow_step_table(&vec![], &vec![]).unwrap();
    assert_eq!(plan.insert, vec![0, 1, 2, 3, 4, 5, 6, 7, 8, 9]);
    assert_eq!(plan.remove, Vec::<u32>::new());
}

#[test]
fn a_complete_store_is_left_alone() {
    let stored = vec![9, 8, 7, 6, 5, 4, 3, 2, 1, 0];
    let plan = build_workflow_step_table(&stored, &vec![0, 5, 6]).unwrap();
    assert_eq!(plan.insert, Vec::<u32>::new());
    assert_eq!(plan.remove, Vec::<u32>::new());
}

#[test]
fn missing_kinds_come_in_and_retired_ones_go() {
    let stored = vec![12, 3, 0, 40, 9, 12, 10];
    let plan = build_workflow_step_table(&stored, &vec![3, 9, 11]).unwrap();
    assert_eq!(plan.insert, vec![1, 2, 4, 5, 6, 7, 8]);
    assert_eq!(plan.remove, vec![12, 40, 10]);
}

#[test]
fn a_retired_kind_that_is_still_used_stops_the_bootstrap() {
    let stored = vec![0, 1, 2, 3, 4, 5, 6, 7, 8, 9, 10, 11];
    let r = build_workflow_step_table(&stored, &vec![2, 11]);
    assert_eq!(r.err(), Some(CustomError::CatalogDrift));
    let r = build_workflow_step_table(&vec![10], &vec![10]);
    assert_eq!(r.err(), Some(CustomError::CatalogDrift));
    let r = build_workflow_step_table(&stored, &vec![2, 12]);
    assert_eq!(r.unwrap().remove, vec![10, 11]);
}

#[test]
fn a_second_bootstrap_changes_nothing() {
    let stored = vec![12, 3, 0, 40, 9];
    let plan = build_workflow_step_table(&stored, &vec![]).unwrap();
    let mut after: Vec<u32> =
        stored.iter().copied().filter(|id| !plan.remove.contains(id)).collect();
    after.extend(plan.insert.iter().copied());
    let again = build_workflow_step_table(&after, &vec![]).unwrap();
    assert_eq!(again.insert, Vec::<u32>::new());
    assert_eq!(again.remove, Vec::<u32>::new());
}

#[test]
fn the_registry_finds_every_variant() {
    let plan = build_workflow_step_table(&vec![], &vec![]).unwrap();
    for v in all_variants() {
        assert_eq!(plan.registry.variant_of(v.id()), Ok(v));
    }
    for id in [0u32, 5, 9, 10, 11, u32::MAX] {
        assert_eq!(plan.registry.variant_of(id), get_variant_by_id(id));
    }
    assert_eq!(plan.registry.variant_of(10), Err(CustomError::UnknownKindId));
}
