use delila::operator::command_ext::OperatorCommandExt;
use delila::operator::routes::event_builder::{default_limit, HistoryQuery};
use delila::reader::ComponentState;

#[test]
fn operator_reports_its_name() {
    let ext = OperatorCommandExt::new();
    assert_eq!(ext.component_name(), "Operator");
}

#[test]
fn operator_reports_no_metrics() {
    let ext = OperatorCommandExt::new();
    assert!(ext.get_metrics().is_none());
}

#[test]
fn history_limit_defaults_to_twenty() {
    assert_eq!(default_limit(), 20);
    let q = HistoryQuery { limit: default_limit() };
    assert_eq!(q.limit, 20);
}

#[test]
fn operator_effective_state_passes_through() {
    let ext = OperatorCommandExt::new();
    for s in [
        ComponentState::Idle,
        ComponentState::Configured,
        ComponentState::Armed,
        ComponentState::Running,
        ComponentState::Error,
    ] {
        assert_eq!(ext.effective_state(s), s);
    }
}
