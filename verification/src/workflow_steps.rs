//! The step catalog: which kinds of workflow step exist, their static
//! attributes, and which kinds may directly precede or follow which.

use vstd::prelude::*;
use crate::database::{CustomError, DocID};

verus! {

/// Number of step kinds; kind ids are `0..KIND_COUNT`.
pub const KIND_COUNT: u32 = 10;

/// Largest core count that the adjacency rules enumerate for rasterization.
pub const MAX_CORES: u32 = 10;

/// Workflow step as it is shown to the user.
#[allow(non_snake_case)]
#[derive(Debug, Clone)]
pub struct WorkflowStep {
    pub id: Option<DocID>,
    pub Title: String,
    pub SetupTime: u32,
    pub TimePerPage: u32,
}

/// What a client sends to place one step in a new workflow.
#[allow(non_snake_case)]
#[derive(Debug, Clone)]
pub struct AssignedWorkflowStepArgs {
    /// The kind of step to place.
    pub WorkflowStepID: u32,
    /// Number of cores; only a rasterization step carries it.
    pub NumCores: Option<u32>,
}

/// A stored step of a stored workflow.
#[allow(non_snake_case)]
#[derive(Debug, Clone)]
pub struct AssignedWorkflowStep {
    /// Row id of this step.
    pub id: DocID,
    /// The kind of step.
    pub WorkflowStepID: DocID,
    /// Row id of the step's parameters, where its kind has any.
    pub param_id: Option<DocID>,
    /// Row ids of the steps that come directly before this one.
    pub Prev: Vec<usize>,
    /// Row ids of the steps that come directly after this one.
    pub Next: Vec<usize>,
}

/// The different types of workflow steps.
#[derive(Clone, Copy, Debug, PartialEq, Eq, Structural)]
pub enum WFSVariant {
    DownloadFile,
    Preflight,
    Impose,
    Analyzer,
    ColorSetup,
    Rasterization { num_cores: u32 },
    Loader,
    Cutting,
    Laminating,
    Metrics,
}

/// Static properties of one kind of step.
pub struct WFSAttributes {
    pub id: DocID,
    pub title: String,
    pub setup_time: u32,
    pub time_per_page: u32,
    /// Steps that may come directly before a step of this kind.
    pub valid_prev: Vec<WFSVariant>,
    /// Steps that may come directly after a step of this kind.
    pub valid_next: Vec<WFSVariant>,
    /// Can a step of this kind be the first of a workflow?
    pub no_prev_valid: bool,
    /// Can a step of this kind be the last of a workflow?
    pub no_next_valid: bool,
}

/// Rasterization with every core count from 0 to `MAX_CORES`, in order.
pub open spec fn any_rasterization() -> Seq<WFSVariant> {
    Seq::new(
        (MAX_CORES + 1) as nat,
        |n: int| WFSVariant::Rasterization { num_cores: n as u32 },
    )
}

/// Every variant in id order; the parameterized one carries 0.
pub open spec fn spec_all_variants() -> Seq<WFSVariant> {
    seq![
        WFSVariant::DownloadFile,
        WFSVariant::Preflight,
        WFSVariant::Impose,
        WFSVariant::Analyzer,
        WFSVariant::ColorSetup,
        WFSVariant::Rasterization { num_cores: 0 },
        WFSVariant::Loader,
        WFSVariant::Cutting,
        WFSVariant::Laminating,
        WFSVariant::Metrics,
    ]
}

/// The variant with the given id, its parameter at 0; `None` for an id that
/// no kind has.
pub open spec fn spec_variant_by_id(id: DocID) -> Option<WFSVariant> {
    if id < KIND_COUNT {
        Some(spec_all_variants()[id as int])
    } else {
        None
    }
}

/// Does `list` hold a step of the same kind as `step`?
pub open spec fn holds_kind(list: Seq<WFSVariant>, step: WFSVariant) -> bool {
    exists|k: int| 0 <= k < list.len() && (#[trigger] list[k]).spec_id() == step.spec_id()
}

/// The adjacency rule: `b` may directly follow `a`. Both kinds must agree.
pub open spec fn may_follow(a: WFSVariant, b: WFSVariant) -> bool {
    holds_kind(a.spec_valid_next(), b) && holds_kind(b.spec_valid_prev(), a)
}

impl WFSVariant {
    pub open spec fn spec_id(&self) -> DocID {
        match self {
            WFSVariant::DownloadFile => 0,
            WFSVariant::Preflight => 1,
            WFSVariant::Impose => 2,
            WFSVariant::Analyzer => 3,
            WFSVariant::ColorSetup => 4,
            WFSVariant::Rasterization { .. } => 5,
            WFSVariant::Loader => 6,
            WFSVariant::Cutting => 7,
            WFSVariant::Laminating => 8,
            WFSVariant::Metrics => 9,
        }
    }

    pub open spec fn spec_title(&self) -> Seq<char> {
        match self {
            WFSVariant::DownloadFile => "Download File"@,
            WFSVariant::Preflight => "Preflight"@,
            WFSVariant::Impose => "Impose"@,
            WFSVariant::Analyzer => "Analyzer"@,
            WFSVariant::ColorSetup => "Color Setup"@,
            WFSVariant::Rasterization { .. } => "Rasterization"@,
            WFSVariant::Loader => "Loader"@,
            WFSVariant::Cutting => "Cutting"@,
            WFSVariant::Laminating => "Laminating"@,
            WFSVariant::Metrics => "Metrics"@,
        }
    }

    pub open spec fn spec_setup_time(&self) -> u32 {
        match self {
            WFSVariant::DownloadFile => 0,
            WFSVariant::Preflight => 10,
            WFSVariant::Impose => 0,
            WFSVariant::Analyzer => 0,
            WFSVariant::ColorSetup => 2,
            WFSVariant::Rasterization { .. } => 50,
            WFSVariant::Loader => 100,
            WFSVariant::Cutting => 10,
            WFSVariant::Laminating => 10,
            WFSVariant::Metrics => 2,
        }
    }

    pub open spec fn spec_time_per_page(&self) -> u32 {
        match self {
            WFSVariant::DownloadFile => 1,
            WFSVariant::Preflight => 20,
            WFSVariant::Impose => 5,
            WFSVariant::Analyzer => 5,
            WFSVariant::ColorSetup => 1,
            WFSVariant::Rasterization { .. } => 15,
            WFSVariant::Loader => 1,
            WFSVariant::Cutting => 2,
            WFSVariant::Laminating => 5,
            WFSVariant::Metrics => 1,
        }
    }

    pub open spec fn spec_valid_prev(&self) -> Seq<WFSVariant> {
        match self {
            WFSVariant::DownloadFile => seq![],
            WFSVariant::Preflight => seq![WFSVariant::DownloadFile],
            WFSVariant::Impose => seq![WFSVariant::Preflight],
            WFSVariant::Analyzer => seq![WFSVariant::Impose],
            WFSVariant::ColorSetup => seq![WFSVariant::Analyzer],
            WFSVariant::Rasterization { .. } => seq![WFSVariant::ColorSetup],
            WFSVariant::Loader => any_rasterization(),
            WFSVariant::Cutting => seq![WFSVariant::Loader, WFSVariant::Metrics],
            WFSVariant::Laminating => seq![
                WFSVariant::Loader,
                WFSVariant::Cutting,
                WFSVariant::Metrics,
            ],
            WFSVariant::Metrics => seq![
                WFSVariant::Loader,
                WFSVariant::Cutting,
                WFSVariant::Laminating,
            ],
        }
    }

    pub open spec fn spec_valid_next(&self) -> Seq<WFSVariant> {
        match self {
            WFSVariant::DownloadFile => seq![WFSVariant::Preflight],
            WFSVariant::Preflight => seq![WFSVariant::Impose],
            WFSVariant::Impose => seq![WFSVariant::Analyzer],
            WFSVariant::Analyzer => seq![WFSVariant::ColorSetup],
            WFSVariant::ColorSetup => any_rasterization(),
            WFSVariant::Rasterization { .. } => seq![WFSVariant::Loader],
            WFSVariant::Loader => seq![
                WFSVariant::Cutting,
                WFSVariant::Laminating,
                WFSVariant::Metrics,
            ],
            WFSVariant::Cutting => seq![WFSVariant::Laminating, WFSVariant::Metrics],
            WFSVariant::Laminating => seq![WFSVariant::Metrics],
            WFSVariant::Metrics => seq![WFSVariant::Cutting, WFSVariant::Laminating],
        }
    }

    pub open spec fn spec_no_prev_valid(&self) -> bool {
        *self == WFSVariant::DownloadFile
    }

    pub open spec fn spec_no_next_valid(&self) -> bool {
        match self {
            WFSVariant::Loader => true,
            WFSVariant::Cutting => true,
            WFSVariant::Laminating => true,
            WFSVariant::Metrics => true,
            _ => false,
        }
    }

    /// The carried configuration is within its documented range: a
    /// rasterization step runs on 1 to `MAX_CORES` cores.
    pub open spec fn spec_in_range(&self) -> bool {
        match self {
            WFSVariant::Rasterization { num_cores } => 1 <= *num_cores <= MAX_CORES,
            _ => true,
        }
    }

    /// The stable id of this step's kind.
    #[verifier::when_used_as_spec(spec_id)]
    pub fn id(&self) -> (r: DocID)
        ensures
            r == self.spec_id(),
    {
        match self {
            WFSVariant::DownloadFile => 0,
            WFSVariant::Preflight => 1,
            WFSVariant::Impose => 2,
            WFSVariant::Analyzer => 3,
            WFSVariant::ColorSetup => 4,
            WFSVariant::Rasterization { .. } => 5,
            WFSVariant::Loader => 6,
            WFSVariant::Cutting => 7,
            WFSVariant::Laminating => 8,
            WFSVariant::Metrics => 9,
        }
    }

    pub fn title(&self) -> (r: String)
        ensures
            r@ == self.spec_title(),
    {
        self.get_wf_step_attributes().title
    }

    #[verifier::when_used_as_spec(spec_setup_time)]
    pub fn setup_time(&self) -> (r: u32)
        ensures
            r == self.spec_setup_time(),
    {
        match self {
            WFSVariant::DownloadFile => 0,
            WFSVariant::Preflight => 10,
            WFSVariant::Impose => 0,
            WFSVariant::Analyzer => 0,
            WFSVariant::ColorSetup => 2,
            WFSVariant::Rasterization { .. } => 50,
            WFSVariant::Loader => 100,
            WFSVariant::Cutting => 10,
            WFSVariant::Laminating => 10,
            WFSVariant::Metrics => 2,
        }
    }

    #[verifier::when_used_as_spec(spec_time_per_page)]
    pub fn time_per_page(&self) -> (r: u32)
        ensures
            r == self.spec_time_per_page(),
    {
        match self {
            WFSVariant::DownloadFile => 1,
            WFSVariant::Preflight => 20,
            WFSVariant::Impose => 5,
            WFSVariant::Analyzer => 5,
            WFSVariant::ColorSetup => 1,
            WFSVariant::Rasterization { .. } => 15,
            WFSVariant::Loader => 1,
            WFSVariant::Cutting => 2,
            WFSVariant::Laminating => 5,
            WFSVariant::Metrics => 1,
        }
    }

    pub fn valid_prev(&self) -> (r: Vec<WFSVariant>)
        ensures
            r@ == self.spec_valid_prev(),
    {
        self.get_wf_step_attributes().valid_prev
    }

    pub fn valid_next(&self) -> (r: Vec<WFSVariant>)
        ensures
            r@ == self.spec_valid_next(),
    {
        self.get_wf_step_attributes().valid_next
    }

    #[verifier::when_used_as_spec(spec_no_prev_valid)]
    pub fn no_prev_valid(&self) -> (r: bool)
        ensures
            r == self.spec_no_prev_valid(),
    {
        match self {
            WFSVariant::DownloadFile => true,
            _ => false,
        }
    }

    #[verifier::when_used_as_spec(spec_no_next_valid)]
    pub fn no_next_valid(&self) -> (r: bool)
        ensures
            r == self.spec_no_next_valid(),
    {
        match self {
            WFSVariant::Loader => true,
            WFSVariant::Cutting => true,
            WFSVariant::Laminating => true,
            WFSVariant::Metrics => true,
            _ => false,
        }
    }

    /// Is the carried configuration within its documented range?
    #[verifier::when_used_as_spec(spec_in_range)]
    pub fn in_range(&self) -> (r: bool)
        ensures
            r == self.spec_in_range(),
    {
        match self {
            WFSVariant::Rasterization { num_cores } => 1 <= *num_cores && *num_cores <= MAX_CORES,
            _ => true,
        }
    }

    /// All static attributes of this step's kind.
    pub fn get_wf_step_attributes(&self) -> (a: WFSAttributes)
        ensures
            a.id == self.spec_id(),
            a.title@ == self.spec_title(),
            a.setup_time == self.spec_setup_time(),
            a.time_per_page == self.spec_time_per_page(),
            a.valid_prev@ == self.spec_valid_prev(),
            a.valid_next@ == self.spec_valid_next(),
            a.no_prev_valid == self.spec_no_prev_valid(),
            a.no_next_valid == self.spec_no_next_valid(),
    {
        let id = self.id();
        let setup_time = self.setup_time();
        let time_per_page = self.time_per_page();
        let no_prev_valid = self.no_prev_valid();
        let no_next_valid = self.no_next_valid();
        match self {
            WFSVariant::DownloadFile => WFSAttributes {
                id,
                title: "Download File".to_string(),
                setup_time,
                time_per_page,
                valid_prev: vec![],
                valid_next: vec![WFSVariant::Preflight],
                no_prev_valid,
                no_next_valid,
            },
            WFSVariant::Preflight => WFSAttributes {
                id,
                title: "Preflight".to_string(),
                setup_time,
                time_per_page,
                valid_prev: vec![WFSVariant::DownloadFile],
                valid_next: vec![WFSVariant::Impose],
                no_prev_valid,
                no_next_valid,
            },
            WFSVariant::Impose => WFSAttributes {
                id,
                title: "Impose".to_string(),
                setup_time,
                time_per_page,
                valid_prev: vec![WFSVariant::Preflight],
                valid_next: vec![WFSVariant::Analyzer],
                no_prev_valid,
                no_next_valid,
            },
            WFSVariant::Analyzer => WFSAttributes {
                id,
                title: "Analyzer".to_string(),
                setup_time,
                time_per_page,
                valid_prev: vec![WFSVariant::Impose],
                valid_next: vec![WFSVariant::ColorSetup],
                no_prev_valid,
                no_next_valid,
            },
            WFSVariant::ColorSetup => WFSAttributes {
                id,
                title: "Color Setup".to_string(),
                setup_time,
                time_per_page,
                valid_prev: vec![WFSVariant::Analyzer],
                valid_next: all_rasterizations(),
                no_prev_valid,
                no_next_valid,
            },
            WFSVariant::Rasterization { .. } => WFSAttributes {
                id,
                title: "Rasterization".to_string(),
                setup_time,
                time_per_page,
                valid_prev: vec![WFSVariant::ColorSetup],
                valid_next: vec![WFSVariant::Loader],
                no_prev_valid,
                no_next_valid,
            },
            WFSVariant::Loader => WFSAttributes {
                id,
                title: "Loader".to_string(),
                setup_time,
                time_per_page,
                valid_prev: all_rasterizations(),
                valid_next: vec![WFSVariant::Cutting, WFSVariant::Laminating, WFSVariant::Metrics],
                no_prev_valid,
                no_next_valid,
            },
            WFSVariant::Cutting => WFSAttributes {
                id,
                title: "Cutting".to_string(),
                setup_time,
                time_per_page,
                valid_prev: vec![WFSVariant::Loader, WFSVariant::Metrics],
                valid_next: vec![WFSVariant::Laminating, WFSVariant::Metrics],
                no_prev_valid,
                no_next_valid,
            },
            WFSVariant::Laminating => WFSAttributes {
                id,
                title: "Laminating".to_string(),
                setup_time,
                time_per_page,
                valid_prev: vec![WFSVariant::Loader, WFSVariant::Cutting, WFSVariant::Metrics],
                valid_next: vec![WFSVariant::Metrics],
                no_prev_valid,
                no_next_valid,
            },
            WFSVariant::Metrics => WFSAttributes {
                id,
                title: "Metrics".to_string(),
                setup_time,
                time_per_page,
                valid_prev: vec![WFSVariant::Loader, WFSVariant::Cutting, WFSVariant::Laminating],
                valid_next: vec![WFSVariant::Cutting, WFSVariant::Laminating],
                no_prev_valid,
                no_next_valid,
            },
        }
    }
}

impl WFSVariant {
    /// Name of the table that holds this kind's parameters, where it has any.
    pub fn get_wfs_param_table(&self) -> (r: Option<String>)
        ensures
            r is Some <==> *self is Rasterization,
            r is Some ==> r->0@ == "rasterization_params"@,
    {
        match self {
            WFSVariant::Rasterization { .. } => Some("rasterization_params".to_string()),
            _ => None,
        }
    }

    /// Sets the parameters of a parameterized step from its stored value.
    /// A rasterization step needs one and takes it as its core count; any
    /// other step must come without.
    pub fn fill_properties(&mut self, prop: Option<u32>) -> (r: Result<(), CustomError>)
        ensures
            match spec_with_properties(*old(self), prop) {
                Ok(filled) => r is Ok && *final(self) == filled,
                Err(e) => r == Err::<(), CustomError>(e) && *final(self) == *old(self),
            },
    {
        match (*self, prop) {
            (WFSVariant::Rasterization { .. }, Some(n)) => {
                *self = WFSVariant::Rasterization { num_cores: n };
                Ok(())
            },
            (WFSVariant::Rasterization { .. }, None) => Err(CustomError::InvalidStep),
            (_, Some(_)) => Err(CustomError::InvalidStep),
            (_, None) => Ok(()),
        }
    }
}

/// A step with its stored parameter filled in: a rasterization step takes
/// `prop` as its core count and fails without one; any other step is
/// returned as it is and fails if a parameter comes with it.
pub open spec fn spec_with_properties(step: WFSVariant, prop: Option<u32>) -> Result<
    WFSVariant,
    CustomError,
> {
    match (step, prop) {
        (WFSVariant::Rasterization { .. }, Some(n)) => Ok(
            WFSVariant::Rasterization { num_cores: n },
        ),
        (WFSVariant::Rasterization { .. }, None) => Err(CustomError::InvalidStep),
        (_, Some(_)) => Err(CustomError::InvalidStep),
        (_, None) => Ok(step),
    }
}

/// The step that a kind id and an optional parameter stand for.
pub open spec fn spec_step_by_id(wfs_id: DocID, prop: Option<u32>) -> Result<
    WFSVariant,
    CustomError,
> {
    match spec_variant_by_id(wfs_id) {
        Some(step) => spec_with_properties(step, prop),
        None => Err(CustomError::UnknownKindId),
    }
}

/// Every variant in id order; the parameterized one carries 0.
pub fn all_variants() -> (r: Vec<WFSVariant>)
    ensures
        r@ == spec_all_variants(),
{
    vec![
        WFSVariant::DownloadFile,
        WFSVariant::Preflight,
        WFSVariant::Impose,
        WFSVariant::Analyzer,
        WFSVariant::ColorSetup,
        WFSVariant::Rasterization { num_cores: 0 },
        WFSVariant::Loader,
        WFSVariant::Cutting,
        WFSVariant::Laminating,
        WFSVariant::Metrics,
    ]
}

/// Returns the variant with the given id. A parameterized variant comes with
/// its parameter at 0, so the result serves to tell the kind; use
/// `get_workflow_step_by_id` for a step with its parameters.
pub fn get_variant_by_id(id: DocID) -> (r: Result<WFSVariant, CustomError>)
    ensures
        r == match spec_variant_by_id(id) {
            Some(step) => Ok::<WFSVariant, CustomError>(step),
            None => Err(CustomError::UnknownKindId),
        },
        r is Ok <==> id < KIND_COUNT,
        r is Ok ==> r->Ok_0.spec_id() == id,
{
    match id {
        0 => Ok(WFSVariant::DownloadFile),
        1 => Ok(WFSVariant::Preflight),
        2 => Ok(WFSVariant::Impose),
        3 => Ok(WFSVariant::Analyzer),
        4 => Ok(WFSVariant::ColorSetup),
        5 => Ok(WFSVariant::Rasterization { num_cores: 0 }),
        6 => Ok(WFSVariant::Loader),
        7 => Ok(WFSVariant::Cutting),
        8 => Ok(WFSVariant::Laminating),
        9 => Ok(WFSVariant::Metrics),
        _ => Err(CustomError::UnknownKindId),
    }
}

/// Gets a step by the id of its kind and fills in its parameter.
pub fn get_workflow_step_by_id(wfs_id: DocID, prop: Option<u32>) -> (r: Result<
    WFSVariant,
    CustomError,
>)
    ensures
        r == spec_step_by_id(wfs_id, prop),
{
    match get_variant_by_id(wfs_id) {
        Ok(step) => {
            let mut output = step;
            match output.fill_properties(prop) {
                Ok(()) => Ok(output),
                Err(e) => Err(e),
            }
        },
        Err(e) => Err(e),
    }
}

impl WorkflowStep {
    /// Does this value show the catalog entry of `step`?
    pub open spec fn shows(&self, step: WFSVariant) -> bool {
        &&& self.id == Some(step.spec_id())
        &&& self.Title@ == step.spec_title()
        &&& self.SetupTime == step.spec_setup_time()
        &&& self.TimePerPage == step.spec_time_per_page()
    }

    /// The catalog entry of the kind with the given id.
    pub fn get(id: DocID) -> (r: Result<WorkflowStep, CustomError>)
        ensures
            match spec_variant_by_id(id) {
                Some(step) => r is Ok && r->Ok_0.shows(step),
                None => r == Err::<WorkflowStep, CustomError>(CustomError::UnknownKindId),
            },
    {
        match get_variant_by_id(id) {
            Ok(wfs) => Ok(
                WorkflowStep {
                    id: Some(id),
                    Title: wfs.title(),
                    SetupTime: wfs.setup_time(),
                    TimePerPage: wfs.time_per_page(),
                },
            ),
            Err(e) => Err(e),
        }
    }
}

/// The catalog entries of all kinds, in id order.
pub fn get_all_workflow_steps() -> (r: Vec<WorkflowStep>)
    ensures
        r@.len() == spec_all_variants().len(),
        forall|k: int| 0 <= k < r@.len() ==> (#[trigger] r@[k]).shows(spec_all_variants()[k]),
{
    let variants = all_variants();
    let mut output: Vec<WorkflowStep> = Vec::new();
    let mut k: usize = 0;
    while k < variants.len()
        invariant
            k <= variants@.len(),
            variants@ == spec_all_variants(),
            output@.len() == k,
            forall|m: int| 0 <= m < k ==> (#[trigger] output@[m]).shows(spec_all_variants()[m]),
        decreases variants@.len() - k,
    {
        let wfs = variants[k];
        output.push(
            WorkflowStep {
                id: Some(wfs.id()),
                Title: wfs.title(),
                SetupTime: wfs.setup_time(),
                TimePerPage: wfs.time_per_page(),
            },
        );
        k = k + 1;
    }
    output
}

/// Does `list` hold a step of the same kind as `step`?
pub fn contains_kind(list: &Vec<WFSVariant>, step: &WFSVariant) -> (r: bool)
    ensures
        r == holds_kind(list@, *step),
{
    let mut k: usize = 0;
    while k < list.len()
        invariant
            k <= list@.len(),
            forall|m: int| 0 <= m < k ==> (#[trigger] list@[m]).spec_id() != step.spec_id(),
        decreases list@.len() - k,
    {
        if list[k].id() == step.id() {
            return true;
        }
        k = k + 1;
    }
    false
}

/// May a step like `b` directly follow a step like `a`?
pub fn follows(a: &WFSVariant, b: &WFSVariant) -> (r: bool)
    ensures
        r == may_follow(*a, *b),
{
    contains_kind(&a.valid_next(), b) && contains_kind(&b.valid_prev(), a)
}

/// Rasterization steps with 0 to `MAX_CORES` cores, in that order.
fn all_rasterizations() -> (r: Vec<WFSVariant>)
    ensures
        r@ == any_rasterization(),
{
    let mut list: Vec<WFSVariant> = Vec::new();
    let mut num_cores: u32 = 0;
    while num_cores <= MAX_CORES
        invariant
            num_cores <= MAX_CORES + 1,
            list@.len() == num_cores,
            forall|n: int|
                0 <= n < num_cores ==> list@[n] == (WFSVariant::Rasterization {
                    num_cores: n as u32,
                }),
        decreases MAX_CORES + 1 - num_cores,
    {
        list.push(WFSVariant::Rasterization { num_cores });
        num_cores = num_cores + 1;
    }
    list
}

/// The kinds that a list names: with `ids` the ids of the kinds of the
/// steps in `list`, a step is of a kind in the list exactly when its id
/// is among them.
proof fn lemma_holds_kind(list: Seq<WFSVariant>, ids: Set<DocID>, step: WFSVariant)
    requires
        forall|k: int| 0 <= k < list.len() ==> ids.contains((#[trigger] list[k]).spec_id()),
        forall|id: DocID|
            ids.contains(id) ==> exists|k: int|
                0 <= k < list.len() && (#[trigger] list[k]).spec_id() == id,
    ensures
        holds_kind(list, step) <==> ids.contains(step.spec_id()),
{
}

/// The ids of the kinds that may directly follow a step.
pub open spec fn next_kind_ids(step: WFSVariant) -> Set<DocID> {
    match step {
        WFSVariant::DownloadFile => set![1],
        WFSVariant::Preflight => set![2],
        WFSVariant::Impose => set![3],
        WFSVariant::Analyzer => set![4],
        WFSVariant::ColorSetup => set![5],
        WFSVariant::Rasterization { .. } => set![6],
        WFSVariant::Loader => set![7, 8, 9],
        WFSVariant::Cutting => set![8, 9],
        WFSVariant::Laminating => set![9],
        WFSVariant::Metrics => set![7, 8],
    }
}

/// The adjacency rules agree on both sides, and go by kind alone: `b`
/// is among the steps that may follow `a` exactly when `a` is among the
/// steps that may precede `b`, which is when the id of the kind of `b`
/// is one of `next_kind_ids(a)`.
pub proof fn lemma_rules_agree(a: WFSVariant, b: WFSVariant)
    ensures
        holds_kind(a.spec_valid_next(), b) <==> holds_kind(b.spec_valid_prev(), a),
        may_follow(a, b) <==> next_kind_ids(a).contains(b.spec_id()),
{
    let next = a.spec_valid_next();
    let prev = b.spec_valid_prev();
    assert(any_rasterization()[0].spec_id() == 5);
    assert(next.len() > 0 ==> next[0].spec_id() >= 0);
    assert(next.len() > 1 ==> next[1].spec_id() >= 0);
    assert(next.len() > 2 ==> next[2].spec_id() >= 0);
    assert(prev.len() > 0 ==> prev[0].spec_id() >= 0);
    assert(prev.len() > 1 ==> prev[1].spec_id() >= 0);
    assert(prev.len() > 2 ==> prev[2].spec_id() >= 0);
    lemma_holds_kind(next, next_kind_ids(a), b);
}

} // verus!
