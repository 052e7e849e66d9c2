//! Plain records exchanged with the persistence and request layers, and the
//! error taxonomy shared by the whole library.

use vstd::prelude::*;
use std::collections::HashMap;
use vstd::string::StringSliceAdditionalSpecFns;

verus! {

/// Row identifier, also used for the stable id of a step kind.
pub type DocID = u32;

/// Why a workflow was rejected as structurally invalid.
#[derive(Clone, Copy, Debug, PartialEq, Eq, Structural)]
pub enum WorkflowFault {
    /// The step list is empty.
    EmptyWorkflow,
    /// A step names a kind id outside the catalog.
    UnknownKindId,
    /// A parameterized step carries a value outside its legal range.
    OutOfRangeParameter,
    /// The edges contain a cycle.
    Cycle,
    /// Some node is not reachable from a source, or reaches no sink.
    Disconnected,
    /// A node without predecessors whose kind may not start a workflow.
    IllegalSource,
    /// A node without successors whose kind may not end a workflow.
    IllegalSink,
    /// Stored rows disagree with the catalog or with each other.
    CatalogMismatch,
}

/// Every failure the library reports.
#[derive(Clone, Copy, Debug, PartialEq, Eq, Structural)]
pub enum CustomError {
    /// No step kind has the requested id.
    UnknownKindId,
    /// A step record is missing a required field or carries an unknown one.
    InvalidStep,
    /// The workflow is structurally invalid.
    InvalidWorkflow(WorkflowFault),
    /// The referenced row does not exist.
    NotFound,
    /// A retired step kind is still referenced by a stored workflow.
    CatalogDrift,
    /// A simulated time does not fit the report's 32-bit fields.
    SimulationError,
    /// Any other internal failure.
    OtherError,
}

impl CustomError {
    /// The HTTP status that the request layer answers with for this error.
    pub open spec fn spec_status_code(self) -> u16 {
        match self {
            CustomError::NotFound => 404,
            CustomError::InvalidStep => 422,
            CustomError::InvalidWorkflow(_) => 422,
            _ => 500,
        }
    }

    /// 404 for a missing row, 422 for an invalid step or workflow, 500 otherwise.
    #[verifier::when_used_as_spec(spec_status_code)]
    pub fn status_code(self) -> (code: u16)
        ensures
            code == self.spec_status_code(),
    {
        match self {
            CustomError::NotFound => 404,
            CustomError::InvalidStep => 422,
            CustomError::InvalidWorkflow(_) => 422,
            _ => 500,
        }
    }
}

/// One logged failure of a request.
#[allow(non_snake_case)]
#[derive(Debug, Clone)]
pub struct ErrorDetailed {
    pub id: Option<DocID>,
    pub date: u32,
    pub status: u32,
    pub domain: String,
    pub request: String,
    pub method: String,
    pub response: String,
}

/// A job to print: a title, a number of pages and a rasterization profile.
#[allow(non_snake_case)]
#[derive(Debug, Clone)]
pub struct PrintJob {
    pub id: Option<DocID>,
    pub DateCreated: Option<u32>,
    pub Title: String,
    pub PageCount: u32,
    pub RasterizationProfileID: u32,
}

/// A named way of rasterizing, with its payload as the store holds it.
#[allow(non_snake_case)]
#[derive(Debug, Clone)]
pub struct RasterizationProfile {
    pub id: DocID,
    pub title: String,
    pub profile: String,
}

/// The outcome of simulating one print job on one workflow.
#[allow(non_snake_case)]
#[derive(Debug, Clone)]
pub struct SimulationReport {
    pub id: Option<DocID>,
    pub PrintJobID: DocID,
    pub WorkflowID: DocID,
    /// Seconds since the epoch.
    pub CreationTime: u32,
    /// Length of the critical path through the workflow.
    pub TotalTimeTaken: u32,
    /// For each kind of step, the time spent in all nodes of that kind.
    pub StepTimes: HashMap<DocID, u32>,
}

/// A simulation report with the titles that a listing shows.
#[allow(non_snake_case)]
#[derive(Debug, Clone)]
pub struct SimulationReportDetailed {
    pub id: Option<DocID>,
    pub PrintJobID: DocID,
    pub PrintJobTitle: String,
    pub WorkflowID: DocID,
    pub WorkflowTitle: String,
    pub RasterizationProfile: String,
    pub CreationTime: u32,
    pub TotalTimeTaken: u32,
    pub StepTimes: HashMap<DocID, u32>,
}

/// What a client sends to have a simulation run.
#[allow(non_snake_case)]
#[derive(Debug, Clone)]
pub struct SimulationReportArgs {
    pub PrintJobID: DocID,
    pub WorkflowID: DocID,
}

/// What a client sends to register a user.
#[allow(non_camel_case_types)]
#[derive(Debug, Clone)]
pub struct user {
    pub email: String,
    pub password: String,
}

impl ErrorDetailed {
    /// A log entry that is not stored yet.
    pub fn new(
        date: u32,
        status: u32,
        domain: String,
        request: String,
        method: String,
        response: String,
    ) -> (entry: ErrorDetailed)
        ensures
            entry.id is None,
            entry.date == date,
            entry.status == status,
            entry.domain == domain,
            entry.request == request,
            entry.method == method,
            entry.response == response,
    {
        ErrorDetailed { id: None, date, status, domain, request, method, response }
    }
}

impl SimulationReport {
    /// A report that is not stored yet.
    pub fn new(
        print_job_id: DocID,
        workflow_id: DocID,
        creation_time: u32,
        total_time_taken: u32,
        step_times: HashMap<DocID, u32>,
    ) -> (report: SimulationReport)
        ensures
            report.id is None,
            report.PrintJobID == print_job_id,
            report.WorkflowID == workflow_id,
            report.CreationTime == creation_time,
            report.TotalTimeTaken == total_time_taken,
            report.StepTimes == step_times,
    {
        SimulationReport {
            id: None,
            PrintJobID: print_job_id,
            WorkflowID: workflow_id,
            CreationTime: creation_time,
            TotalTimeTaken: total_time_taken,
            StepTimes: step_times,
        }
    }
}

/// Picks the one row that a lookup by id found: no row means that the id
/// is unknown, more than one that the store is inconsistent.
pub fn check_id_lookup_results<T>(rows: Vec<T>) -> (r: Result<T, CustomError>)
    ensures
        rows@.len() == 0 ==> r is Err && r->Err_0 == CustomError::NotFound,
        rows@.len() == 1 ==> r is Ok && r->Ok_0 == rows@[0],
        rows@.len() > 1 ==> r is Err && r->Err_0 == CustomError::OtherError,
{
    let mut rows = rows;
    if rows.len() == 0 {
        Err(CustomError::NotFound)
    } else if rows.len() == 1 {
        match rows.pop() {
            Some(row) => Ok(row),
            None => Err(CustomError::OtherError),
        }
    } else {
        Err(CustomError::OtherError)
    }
}

/// The SHA-256 digest of a byte string.
pub uninterp spec fn sha256(data: Seq<u8>) -> Seq<u8>;

/// `sha2::Sha256` through `Digest::new`, `update` and `finalize`: the
/// digest of `data`, which is a function of the bytes alone.
#[verifier::external_body]
fn sha256_digest(data: &[u8]) -> (digest: Vec<u8>)
    ensures
        digest@ == sha256(data@),
{
    let mut hasher = <sha2::Sha256 as sha2::Digest>::new();
    sha2::Digest::update(&mut hasher, data);
    sha2::Digest::finalize(hasher).to_vec()
}

/// What is stored in place of a user's password: the SHA-256 digest of
/// its bytes.
pub fn password_hash(password: &str) -> (hash: Vec<u8>)
    ensures
        hash@ == sha256(password.spec_bytes()),
{
    sha256_digest(password.as_bytes())
}

} // verus!
