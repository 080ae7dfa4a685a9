//! Operator: the REST front end that drives the pipeline components.

pub mod command_ext;
pub mod routes;
pub mod run_control;
