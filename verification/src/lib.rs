//! Print-production workflows as directed acyclic graphs of typed steps.
//!
//! - `workflow_steps`: the step catalog, with the static attributes of
//!   every kind of step and the adjacency rules between kinds.
//! - `workflow`: workflows as graphs, and the builder that infers the
//!   edges of a workflow from the adjacency rules.
//! - `topology`, `reach`, `validation`: acyclicity, connectivity and the
//!   other structural rules that a workflow must obey.
//! - `simulation`: the cost of every node for a print job, and the
//!   critical path through the workflow.
//! - `registry`: how the stored list of step kinds is brought in line
//!   with the catalog.
//! - `loader`: the rows that a workflow is stored as.
//! - `json`: step records as JSON objects.
//! - `database`: the plain records and the errors of the library.

pub mod database;
pub mod json;
pub mod loader;
pub mod reach;
pub mod registry;
pub mod simulation;
pub mod topology;
pub mod validation;
pub mod workflow;
pub mod workflow_steps;
