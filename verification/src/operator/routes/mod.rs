//! Request types of the Operator's REST routes.

pub mod digitizer;
pub mod event_builder;
