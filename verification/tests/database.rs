use backend::database::{
    check_id_lookup_results, password_hash, CustomError, ErrorDetailed, SimulationReport,
    WorkflowFault,
};
use std::collections::HashMap;

#[test]
fn a_new_log_entry_holds_what_it_was_given() {
    let entry = ErrorDetailed::new(
        1_700_000_000,
        404,
        "api.example.com/PrintJob/7".to_string(),
        "".to_string(),
        "GET".to_string(),
        "not found".to_string(),
    );
    assert_eq!(entry.id, None);
    assert_eq!(entry.date, 1_700_000_000);
    assert_eq!(entry.status, 404);
    assert_eq!(entry.domain, "api.example.com/PrintJob/7");
    assert_eq!(entry.request, "");
    assert_eq!(entry.method, "GET");
    assert_eq!(entry.response, "not found");
}

#[test]
fn a_new_report_holds_what_it_was_given() {
    let times: HashMap<u32, u32> = HashMap::from([(2, 15), (6, 110)]);
    let report = SimulationReport::new(4, 9, 1_700_000_001, 642, times.clone());
    assert_eq!(report.id, None);
    assert_eq!(report.PrintJobID, 4);
    assert_eq!(report.WorkflowID, 9);
    assert_eq!(report.CreationTime, 1_700_000_001);
    assert_eq!(report.TotalTimeTaken, 642);
    assert_eq!(report.StepTimes, times);
}

#[test]
fn a_lookup_by_id_wants_one_row() {
    assert_eq!(check_id_lookup_results::<u8>(vec![]), Err(CustomError::NotFound));
    assert_eq!(check_id_lookup_results(vec![7u8]), Ok(7));
    assert_eq!(check_id_lookup_results(vec![7u8, 7]), Err(CustomError::OtherError));
    assert_eq!(check_id_lookup_results(vec!["a", "b", "c"]), Err(CustomError::OtherError));
}

#[test]
fn errors_map_to_status_codes() {
    assert_eq!(CustomError::NotFound.status_code(), 404);
    assert_eq!(CustomError::InvalidStep.status_code(), 422);
    let faults = [
        WorkflowFault::EmptyWorkflow,
        WorkflowFault::UnknownKindId,
        WorkflowFault::OutOfRangeParameter,
        WorkflowFault::Cycle,
        WorkflowFault::Disconnected,
        WorkflowFault::IllegalSource,
        WorkflowFault::IllegalSink,
        WorkflowFault::CatalogMismatch,
    ];
    for fault in faults {
        assert_eq!(CustomError::InvalidWorkflow(fault).status_code(), 422);
    }
    assert_eq!(CustomError::UnknownKindId.status_code(), 500);
    assert_eq!(CustomError::CatalogDrift.status_code(), 500);
    assert_eq!(CustomError::SimulationError.status_code(), 500);
    assert_eq!(CustomError::OtherError.status_code(), 500);
}

#[test]
fn a_password_is_stored_as_its_sha256_digest() {
    let expected: [u8; 32] = [
        0xba, 0x78, 0x16, 0xbf, 0x8f, 0x01, 0xcf, 0xea, 0x41, 0x41, 0x40, 0xde, 0x5d, 0xae, 0x22,
        0x23, 0xb0, 0x03, 0x61, 0xa3, 0x96, 0x17, 0x7a, 0x9c, 0xb4, 0x10, 0xff, 0x61, 0xf2, 0x00,
        0x15, 0xad,
    ];
    assert_eq!(password_hash("abc"), expected.to_vec());
    let empty: [u8; 32] = [
        0xe3, 0xb0, 0xc4, 0x42, 0x98, 0xfc, 0x1c, 0x14, 0x9a, 0xfb, 0xf4, 0xc8, 0x99, 0x6f, 0xb9,
        0x24, 0x27, 0xae, 0x41, 0xe4, 0x64, 0x9b, 0x93, 0x4c, 0xa4, 0x95, 0x99, 0x1b, 0x78, 0x52,
        0xb8, 0x55,
    ];
    assert_eq!(password_hash(""), empty.to_vec());
}
