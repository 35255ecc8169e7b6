//! What the tray shows of the stack: one overall state, and whether the
//! toggle offers to stop everything.
use crate::orchestrator::ServiceStatus;
use crate::service::ServiceState;
use vstd::prelude::*;

verus! {

/// The overall state of the stack.
#[derive(Clone, Copy, Debug, PartialEq, Eq, Structural)]
pub enum TrayState {
    Stopped,
    Starting,
    Running,
    Crashed,
}

/// Some service of `snap` is in state `st`.
pub open spec fn any_in(snap: Seq<ServiceStatus>, st: ServiceState) -> bool {
    exists|i: int| 0 <= i < snap.len() && #[trigger] snap[i].state == st
}

/// The overall state, by priority: crashed, then starting (a start in
/// progress counts), then running (any service up), else stopped.
pub open spec fn spec_tray_state(snap: Seq<ServiceStatus>, starting: bool) -> TrayState {
    if any_in(snap, ServiceState::Crashed) {
        TrayState::Crashed
    } else if starting || any_in(snap, ServiceState::Starting) {
        TrayState::Starting
    } else if any_in(snap, ServiceState::Running) {
        TrayState::Running
    } else {
        TrayState::Stopped
    }
}

/// Whether some service of `snap` is in state `st`.
fn has_state(snap: &Vec<ServiceStatus>, st: ServiceState) -> (b: bool)
    ensures
        b == any_in(snap@, st),
{
    let mut i: usize = 0;
    while i < snap.len()
        invariant
            0 <= i <= snap@.len(),
            forall|j: int| 0 <= j < i ==> snap@[j].state != st,
        decreases snap@.len() - i,
    {
        if snap[i].state == st {
            return true;
        }
        i = i + 1;
    }
    false
}

/// The overall state shown in the tray (see [`spec_tray_state`]);
/// `starting` is whether a start of everything is in progress.
pub fn tray_state(snap: &Vec<ServiceStatus>, starting: bool) -> (t: TrayState)
    ensures
        t == spec_tray_state(snap@, starting),
{
    if has_state(snap, ServiceState::Crashed) {
        TrayState::Crashed
    } else if starting || has_state(snap, ServiceState::Starting) {
        TrayState::Starting
    } else if has_state(snap, ServiceState::Running) {
        TrayState::Running
    } else {
        TrayState::Stopped
    }
}

/// Every service runs (and there is at least one): the toggle then offers
/// to stop them all.
pub fn all_running(snap: &Vec<ServiceStatus>) -> (b: bool)
    ensures
        b == (snap@.len() > 0 && forall|i: int| 0 <= i < snap@.len() ==> #[trigger] snap@[i].state == ServiceState::Running),
{
    if snap.len() == 0 {
        return false;
    }
    let mut i: usize = 0;
    while i < snap.len()
        invariant
            0 <= i <= snap@.len(),
            forall|j: int| 0 <= j < i ==> #[trigger] snap@[j].state == ServiceState::Running,
        decreases snap@.len() - i,
    {
        if snap[i].state != ServiceState::Running {
            return false;
        }
        i = i + 1;
    }
    true
}

} // verus!
