use laralux_core::orchestrator::ServiceStatus;
use laralux_core::service::{ServiceKind, ServiceState};
use laralux_core::tray::{all_running, tray_state, TrayState};

fn st(kind: ServiceKind, state: ServiceState) -> ServiceStatus {
    ServiceStatus { kind, state }
}

#[test]
fn tray_state_follows_the_priority() {
    let up = st(ServiceKind::Nginx, ServiceState::Running);
    let down = st(ServiceKind::Redis, ServiceState::Stopped);
    let crashed = st(ServiceKind::Mariadb, ServiceState::Crashed);
    let starting = st(ServiceKind::PhpFpm, ServiceState::Starting);
    assert_eq!(tray_state(&vec![up, down], false), TrayState::Running);
    assert_eq!(tray_state(&vec![down], false), TrayState::Stopped);
    assert_eq!(tray_state(&vec![], false), TrayState::Stopped);
    assert_eq!(tray_state(&vec![up, down], true), TrayState::Starting);
    assert_eq!(tray_state(&vec![up, starting], false), TrayState::Starting);
    assert_eq!(tray_state(&vec![up, starting, crashed], true), TrayState::Crashed);
}

#[test]
fn toggle_offers_stop_only_when_everything_runs() {
    let up = st(ServiceKind::Nginx, ServiceState::Running);
    let down = st(ServiceKind::Redis, ServiceState::Stopped);
    assert!(all_running(&vec![up, up]));
    assert!(!all_running(&vec![up, down]));
    assert!(!all_running(&vec![]));
}
