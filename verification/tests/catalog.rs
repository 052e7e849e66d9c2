use backend::database::CustomError;
use backend::workflow_steps::{
    all_variants, contains_kind, follows, get_all_workflow_steps, get_variant_by_id,
    get_workflow_step_by_id, WFSVariant, WorkflowStep,
};

fn ids(list: &[WFSVariant]) -> Vec<u32> {
    list.iter().map(|v| v.id()).collect()
}

#[test]
fn variant_ids_are_stable() {
    assert_eq!(WFSVariant::DownloadFile.id(), 0);
    assert_eq!(WFSVariant::Preflight.id(), 1);
    assert_eq!(WFSVariant::Impose.id(), 2);
    assert_eq!(WFSVariant::Analyzer.id(), 3);
    assert_eq!(WFSVariant::ColorSetup.id(), 4);
    assert_eq!(WFSVariant::Rasterization { num_cores: 3 }.id(), 5);
    assert_eq!(WFSVariant::Loader.id(), 6);
    assert_eq!(WFSVariant::Cutting.id(), 7);
    assert_eq!(WFSVariant::Laminating.id(), 8);
    assert_eq!(WFSVariant::Metrics.id(), 9);
}

#[test]
fn catalog_times_and_titles() {
    let expected: [(&str, u32, u32); 10] = [
        ("Download File", 0, 1),
        ("Preflight", 10, 20),
        ("Impose", 0, 5),
        ("Analyzer", 0, 5),
        ("Color Setup", 2, 1),
        ("Rasterization", 50, 15),
        ("Loader", 100, 1),
        ("Cutting", 10, 2),
        ("Laminating", 10, 5),
        ("Metrics", 2, 1),
    ];
    let variants = all_variants();
    assert_eq!(variants.len(), 10);
    for (i, v) in variants.iter().enumerate() {
        assert_eq!(v.id(), i as u32);
        assert_eq!(v.title(), expected[i].0);
        assert_eq!(v.setup_time(), expected[i].1);
        assert_eq!(v.time_per_page(), expected[i].2);
        let attributes = v.get_wf_step_attributes();
        assert_eq!(attributes.id, i as u32);
        assert_eq!(attributes.title, expected[i].0);
        assert_eq!(attributes.setup_time, expected[i].1);
        assert_eq!(attributes.time_per_page, expected[i].2);
        assert_eq!(attributes.valid_prev, v.valid_prev());
        assert_eq!(attributes.valid_next, v.valid_next());
        assert_eq!(attributes.no_prev_valid, v.no_prev_valid());
        assert_eq!(attributes.no_next_valid, v.no_next_valid());
    }
}

#[test]
fn catalog_adjacency() {
    assert_eq!(ids(&WFSVariant::DownloadFile.valid_prev()), Vec::<u32>::new());
    assert_eq!(ids(&WFSVariant::DownloadFile.valid_next()), vec![1]);
    assert_eq!(ids(&WFSVariant::Preflight.valid_prev()), vec![0]);
    assert_eq!(ids(&WFSVariant::Preflight.valid_next()), vec![2]);
    assert_eq!(ids(&WFSVariant::Impose.valid_prev()), vec![1]);
    assert_eq!(ids(&WFSVariant::Impose.valid_next()), vec![3]);
    assert_eq!(ids(&WFSVariant::Analyzer.valid_prev()), vec![2]);
    assert_eq!(ids(&WFSVariant::Analyzer.valid_next()), vec![4]);
    assert_eq!(ids(&WFSVariant::ColorSetup.valid_prev()), vec![3]);
    assert_eq!(ids(&WFSVariant::Rasterization { num_cores: 4 }.valid_prev()), vec![4]);
    assert_eq!(ids(&WFSVariant::Rasterization { num_cores: 4 }.valid_next()), vec![6]);
    assert_eq!(ids(&WFSVariant::Loader.valid_next()), vec![7, 8, 9]);
    assert_eq!(ids(&WFSVariant::Cutting.valid_prev()), vec![6, 9]);
    assert_eq!(ids(&WFSVariant::Cutting.valid_next()), vec![8, 9]);
    assert_eq!(ids(&WFSVariant::Laminating.valid_prev()), vec![6, 7, 9]);
    assert_eq!(ids(&WFSVariant::Laminating.valid_next()), vec![9]);
    assert_eq!(ids(&WFSVariant::Metrics.valid_prev()), vec![6, 7, 8]);
    assert_eq!(ids(&WFSVariant::Metrics.valid_next()), vec![7, 8]);
}

#[test]
fn rasterization_is_listed_with_every_core_count() {
    let expected: Vec<WFSVariant> =
        (0..=10).map(|num_cores| WFSVariant::Rasterization { num_cores }).collect();
    assert_eq!(WFSVariant::ColorSetup.valid_next(), expected);
    assert_eq!(WFSVariant::Loader.valid_prev(), expected);
}

#[test]
fn only_download_starts_and_only_the_last_four_end() {
    for v in all_variants() {
        assert_eq!(v.no_prev_valid(), v.id() == 0);
        assert_eq!(v.no_next_valid(), v.id() >= 6);
    }
}

#[test]
fn core_counts_from_one_to_ten_are_in_range() {
    assert!(!WFSVariant::Rasterization { num_cores: 0 }.in_range());
    assert!(WFSVariant::Rasterization { num_cores: 1 }.in_range());
    assert!(WFSVariant::Rasterization { num_cores: 10 }.in_range());
    assert!(!WFSVariant::Rasterization { num_cores: 11 }.in_range());
    assert!(WFSVariant::Loader.in_range());
}

#[test]
fn variant_by_id() {
    for v in all_variants() {
        assert_eq!(get_variant_by_id(v.id()), Ok(v));
    }
    assert_eq!(get_variant_by_id(5), Ok(WFSVariant::Rasterization { num_cores: 0 }));
    assert_eq!(get_variant_by_id(10), Err(CustomError::UnknownKindId));
    assert_eq!(get_variant_by_id(u32::MAX), Err(CustomError::UnknownKindId));
}

#[test]
fn step_by_id_fills_the_parameter() {
    assert_eq!(
        get_workflow_step_by_id(5, Some(7)),
        Ok(WFSVariant::Rasterization { num_cores: 7 })
    );
    assert_eq!(get_workflow_step_by_id(6, None), Ok(WFSVariant::Loader));
    assert_eq!(get_workflow_step_by_id(5, None), Err(CustomError::InvalidStep));
    assert_eq!(get_workflow_step_by_id(6, Some(1)), Err(CustomError::InvalidStep));
    assert_eq!(get_workflow_step_by_id(12, None), Err(CustomError::UnknownKindId));
    assert_eq!(get_workflow_step_by_id(12, Some(1)), Err(CustomError::UnknownKindId));
}

#[test]
fn fill_properties_changes_rasterization_only() {
    let mut step = WFSVariant::Rasterization { num_cores: 0 };
    assert_eq!(step.fill_properties(Some(4)), Ok(()));
    assert_eq!(step, WFSVariant::Rasterization { num_cores: 4 });
    assert_eq!(step.fill_properties(None), Err(CustomError::InvalidStep));
    assert_eq!(step, WFSVariant::Rasterization { num_cores: 4 });
    let mut other = WFSVariant::Cutting;
    assert_eq!(other.fill_properties(None), Ok(()));
    assert_eq!(other.fill_properties(Some(2)), Err(CustomError::InvalidStep));
    assert_eq!(other, WFSVariant::Cutting);
}

#[test]
fn only_rasterization_has_a_parameter_table() {
    for v in all_variants() {
        let table = v.get_wfs_param_table();
        if v.id() == 5 {
            assert_eq!(table, Some("rasterization_params".to_string()));
        } else {
            assert_eq!(table, None);
        }
    }
}

#[test]
fn workflow_step_shows_the_catalog_entry() {
    let step: WorkflowStep = WorkflowStep::get(1).unwrap();
    assert_eq!(step.id, Some(1));
    assert_eq!(step.Title, "Preflight");
    assert_eq!(step.SetupTime, 10);
    assert_eq!(step.TimePerPage, 20);
    assert_eq!(WorkflowStep::get(10).err(), Some(CustomError::UnknownKindId));
    let all = get_all_workflow_steps();
    assert_eq!(all.len(), 10);
    for (i, s) in all.iter().enumerate() {
        assert_eq!(s.id, Some(i as u32));
    }
    assert_eq!(all[6].Title, "Loader");
    assert_eq!(all[6].SetupTime, 100);
    assert_eq!(all[6].TimePerPage, 1);
}

#[test]
fn adjacency_goes_by_kind_not_by_parameter() {
    assert!(contains_kind(&vec![WFSVariant::Loader, WFSVariant::Rasterization { num_cores: 2 }], &WFSVariant::Rasterization {
        num_cores: 9
    }));
    assert!(!contains_kind(&vec![WFSVariant::Loader, WFSVariant::Cutting], &WFSVariant::Metrics));
    assert!(follows(&WFSVariant::ColorSetup, &WFSVariant::Rasterization { num_cores: 25 }));
    assert!(follows(&WFSVariant::Rasterization { num_cores: 0 }, &WFSVariant::Loader));
    assert!(follows(&WFSVariant::Cutting, &WFSVariant::Metrics));
    assert!(follows(&WFSVariant::Metrics, &WFSVariant::Cutting));
    assert!(!follows(&WFSVariant::Laminating, &WFSVariant::Cutting));
    assert!(!follows(&WFSVariant::DownloadFile, &WFSVariant::Impose));
    assert!(!follows(&WFSVariant::Loader, &WFSVariant::Loader));
}

#[test]
fn adjacency_rules_agree_on_both_sides() {
    for a in all_variants() {
        for b in all_variants() {
            let next = contains_kind(&a.valid_next(), &b);
            let prev = contains_kind(&b.valid_prev(), &a);
            assert_eq!(next, prev);
            assert_eq!(follows(&a, &b), next && prev);
        }
    }
}
