//! The Operator's command-handler surface. The Operator sends run-control
//! commands rather than receiving them, so it has no state and no
//! pipeline metrics of its own; it only identifies itself.

use vstd::prelude::*;

use crate::reader::ComponentState;

verus! {

/// Pipeline counters a component reports; rates are derived from them
/// where the metrics are published.
#[derive(Debug, Clone)]
pub struct ComponentMetrics {
    pub events_processed: u64,
    pub bytes_transferred: u64,
    pub queue_size: u32,
    pub queue_max: u32,
    pub trigger_loss_count: u64,
    pub channel_counts: Option<Vec<u64>>,
}

/// Stateless command handler of the Operator.
#[derive(Debug, Default, Clone, Copy)]
pub struct OperatorCommandExt;

impl OperatorCommandExt {
    pub fn new() -> (r: Self)
        ensures
            r == OperatorCommandExt,
    {
        OperatorCommandExt
    }

    /// The component's name, "Operator".
    pub fn component_name(&self) -> (r: &'static str)
        ensures
            r@ == "Operator"@,
    {
        "Operator"
    }

    /// The state to report: the Operator holds no hardware state, so the
    /// software target state is reported as it is.
    pub fn effective_state(&self, target: ComponentState) -> (r: ComponentState)
        ensures
            r == target,
    {
        target
    }

    /// The Operator exports no pipeline metrics.
    pub fn get_metrics(&self) -> (r: Option<ComponentMetrics>)
        ensures
            r is None,
    {
        None
    }
}

} // verus!
